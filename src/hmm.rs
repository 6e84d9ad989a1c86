//! Pitch-bin state space of the hidden Markov model: bin constants,
//! the triangular pitch-transition kernel and state indexing.

use vstd::prelude::*;

verus! {

/// Number of 10-cent pitch bins, starting at 55 Hz.
pub const NUM_BINS: usize = 600;

/// Largest pitch change, in bins, allowed between two consecutive frames.
pub const MAX_PITCH_JUMP: i32 = 25;

/// Number of entries of the pitch-transition kernel (`-25..=25`).
pub const NUM_DELTAS: usize = 51;

/// Position of a bin difference in the pitch-transition kernel, or `None`
/// when the jump is larger than `MAX_PITCH_JUMP`.
pub fn delta_index(delta: i32) -> (r: Option<usize>)
    ensures
        r == spec_delta_index(delta),
        r.is_some() ==> r.unwrap() < NUM_DELTAS,
{
    let max_delta = MAX_PITCH_JUMP;
    if delta < -max_delta || delta > max_delta {
        return None;
    }
    Some((delta + max_delta) as usize)
}

/// Sum of the triangular pitch-transition weights: the normaliser that turns
/// them into probabilities.
pub const TRANSITION_WEIGHT_TOTAL: u32 = 676;

/// Number of HMM states: every bin, unvoiced and voiced.
pub const NUM_STATES: usize = 2 * NUM_BINS;

/// Unnormalised weight of a pitch change of `delta` bins: `26 - |delta|`
/// inside the allowed window.
pub open spec fn triangular_weight(delta: int) -> int {
    MAX_PITCH_JUMP + 1 - (if delta < 0 { -delta } else { delta })
}

/// The kernel, indexed by `delta + MAX_PITCH_JUMP`.
pub open spec fn transition_weights() -> Seq<u32> {
    Seq::new(NUM_DELTAS as nat, |k: int| triangular_weight(k - MAX_PITCH_JUMP) as u32)
}

/// Sum of the first `n` entries of `s`.
pub open spec fn sum_prefix(s: Seq<u32>, n: int) -> int
    decreases n,
{
    if n <= 0 {
        0
    } else {
        sum_prefix(s, n - 1) + s[n - 1] as int
    }
}

/// The triangular pitch-transition weights `26 - |delta|` for
/// `delta = -25..=25`, in that order.
pub fn pitch_transition_weights() -> (weights: Vec<u32>)
    ensures
        weights@ == transition_weights(),
{
    let mut weights: Vec<u32> = Vec::with_capacity(NUM_DELTAS);
    let max_delta = MAX_PITCH_JUMP;
    let mut delta: i32 = -max_delta;
    while delta <= max_delta
        invariant
            max_delta == MAX_PITCH_JUMP,
            -MAX_PITCH_JUMP <= delta <= MAX_PITCH_JUMP + 1,
            weights@.len() == delta + MAX_PITCH_JUMP,
            forall|k: int|
                0 <= k < weights@.len() ==> weights@[k] == transition_weights()[k],
        decreases MAX_PITCH_JUMP + 1 - delta,
    {
        let magnitude: i32 = if delta < 0 {
            -delta
        } else {
            delta
        };
        weights.push((max_delta + 1 - magnitude) as u32);
        delta = delta + 1;
    }
    assert(weights@ =~= transition_weights());
    weights
}

proof fn lemma_rising_sum(n: int)
    requires
        0 <= n <= 26,
    ensures
        sum_prefix(transition_weights(), n) == n * (n + 1) / 2,
    decreases n,
{
    if n > 0 {
        lemma_rising_sum(n - 1);
        assert(transition_weights()[n - 1] == n);
        assert(n * (n + 1) / 2 == (n - 1) * n / 2 + n) by (nonlinear_arith);
    }
}

proof fn lemma_falling_sum(n: int)
    requires
        26 <= n <= 51,
    ensures
        sum_prefix(transition_weights(), n) == 351 + 325 - (51 - n) * (52 - n) / 2,
    decreases n,
{
    if n == 26 {
        lemma_rising_sum(26);
    } else {
        lemma_falling_sum(n - 1);
        assert(transition_weights()[n - 1] == 52 - n);
        assert((52 - n) * (53 - n) / 2 == (51 - n) * (52 - n) / 2 + (52 - n)) by (nonlinear_arith);
    }
}

/// The pitch-transition weights form a distribution once divided by
/// `TRANSITION_WEIGHT_TOTAL`: they sum to it and each is positive, so every
/// log weight inside the window is finite. Jumps beyond the window have no
/// entry at all.
pub proof fn lemma_transition_weights_normalised()
    ensures
        sum_prefix(transition_weights(), NUM_DELTAS as int) == TRANSITION_WEIGHT_TOTAL,
        forall|k: int| 0 <= k < NUM_DELTAS ==> transition_weights()[k] > 0,
        forall|delta: int|
            -MAX_PITCH_JUMP <= delta <= MAX_PITCH_JUMP ==> triangular_weight(delta) > 0,
        forall|delta: i32|
            delta < -MAX_PITCH_JUMP || delta > MAX_PITCH_JUMP ==> (#[trigger] spec_delta_index(
                delta,
            )).is_none(),
{
    lemma_falling_sum(51);
}

/// Spec counterpart of `delta_index`.
pub open spec fn spec_delta_index(delta: i32) -> Option<usize> {
    if -MAX_PITCH_JUMP <= delta <= MAX_PITCH_JUMP {
        Some((delta + MAX_PITCH_JUMP) as usize)
    } else {
        None
    }
}

/// One HMM state: a pitch bin and the voicing flag.
#[derive(Debug, Clone, Copy, PartialEq, Eq, Structural)]
pub struct HmmState {
    pub bin: usize,
    pub voiced: bool,
}

/// Index of `(bin, voiced)` in the score and backpointer vectors.
pub open spec fn spec_state_index(bin: int, voiced: bool) -> int {
    if voiced {
        NUM_BINS + bin
    } else {
        bin
    }
}

/// The state stored at index `idx`.
pub open spec fn spec_state_from_index(idx: int) -> HmmState {
    if idx >= NUM_BINS {
        HmmState { bin: (idx - NUM_BINS) as usize, voiced: true }
    } else {
        HmmState { bin: idx as usize, voiced: false }
    }
}

pub fn state_index(bin: usize, voiced: bool) -> (r: usize)
    requires
        bin < NUM_BINS,
    ensures
        r == spec_state_index(bin as int, voiced),
        r < NUM_STATES,
        spec_state_from_index(r as int) == (HmmState { bin, voiced }),
{
    if voiced {
        NUM_BINS + bin
    } else {
        bin
    }
}

pub fn state_from_index(idx: usize) -> (r: HmmState)
    ensures
        r == spec_state_from_index(idx as int),
        idx < NUM_STATES ==> r.bin < NUM_BINS && spec_state_index(r.bin as int, r.voiced) == idx,
{
    if idx >= NUM_BINS {
        HmmState { bin: idx - NUM_BINS, voiced: true }
    } else {
        HmmState { bin: idx, voiced: false }
    }
}

/// Bins from which a frame can reach `next_bin`: those within
/// `MAX_PITCH_JUMP` of it, clipped to the bin range (both ends included).
pub fn predecessor_bins(next_bin: usize) -> (r: (usize, usize))
    requires
        next_bin < NUM_BINS,
    ensures
        r.0 == (if next_bin >= MAX_PITCH_JUMP { next_bin - MAX_PITCH_JUMP } else { 0 }),
        r.1 == (if next_bin + MAX_PITCH_JUMP < NUM_BINS {
            next_bin + MAX_PITCH_JUMP
        } else {
            NUM_BINS - 1
        }),
        r.0 <= next_bin <= r.1 < NUM_BINS,
{
    let jump = MAX_PITCH_JUMP as usize;
    let low = next_bin.saturating_sub(jump);
    let high = if next_bin + jump < NUM_BINS {
        next_bin + jump
    } else {
        NUM_BINS - 1
    };
    (low, high)
}

} // verus!
