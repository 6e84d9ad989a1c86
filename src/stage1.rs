//! Integer bookkeeping of the Stage 1 candidate builder: the lag range that
//! is searched, and the grouping of per-threshold picks into candidates.

use vstd::prelude::*;

verus! {

/// Searched lag range `(min_tau, max_tau)` from the raw bounds
/// `ceil(sr / fmax)` and `floor(sr / fmin)`: the upper bound is cut to the
/// frame, the lower one is at least 1 and at most the upper one.
pub open spec fn spec_tau_range(raw_min: usize, raw_max: usize, frame_size: usize) -> (
    usize,
    usize,
) {
    let cap: int = if frame_size >= 1 {
        frame_size - 1
    } else {
        0
    };
    let max_tau: int = if raw_max < cap {
        raw_max as int
    } else {
        cap
    };
    let low: int = if raw_min >= 1 {
        raw_min as int
    } else {
        1
    };
    let min_tau: int = if low < max_tau {
        low
    } else {
        max_tau
    };
    (min_tau as usize, max_tau as usize)
}

pub fn tau_range(raw_min: usize, raw_max: usize, frame_size: usize) -> (r: (usize, usize))
    ensures
        r == spec_tau_range(raw_min, raw_max, frame_size),
        r.0 <= r.1,
        r.1 < frame_size || frame_size == 0,
        r.1 >= 1 ==> r.0 >= 1,
{
    let max_tau = if raw_max < frame_size.saturating_sub(1) {
        raw_max
    } else {
        frame_size.saturating_sub(1)
    };
    let low = if raw_min >= 1 {
        raw_min
    } else {
        1
    };
    let min_tau = if low < max_tau {
        low
    } else {
        max_tau
    };
    (min_tau, max_tau)
}

/// Position of the first of `minima[from..]` that lies in `[min_tau, max_tau]`
/// and whose level is at most `threshold`, if any. The level of a minimum is
/// the index of the first threshold that its normalized difference is below.
pub open spec fn first_pick(
    minima: Seq<usize>,
    levels: Seq<usize>,
    min_tau: usize,
    max_tau: usize,
    threshold: int,
    from: int,
) -> Option<int>
    decreases minima.len() - from,
{
    if from < 0 || from >= minima.len() {
        None
    } else if min_tau <= minima[from] <= max_tau && levels[from] <= threshold {
        Some(from)
    } else {
        first_pick(minima, levels, min_tau, max_tau, threshold, from + 1)
    }
}

/// The lag picked for threshold `threshold`, and whether a local minimum
/// qualified (`false`: the fallback lag, to be attenuated).
pub open spec fn spec_pick(
    minima: Seq<usize>,
    levels: Seq<usize>,
    min_tau: usize,
    max_tau: usize,
    fallback_tau: usize,
    threshold: int,
) -> (usize, bool) {
    match first_pick(minima, levels, min_tau, max_tau, threshold, 0) {
        Some(k) => (minima[k], true),
        None => (fallback_tau, false),
    }
}

/// For each of `num_thresholds` ascending thresholds, picks the first local
/// minimum (in the order of `minima`) inside `[min_tau, max_tau]` that lies
/// below the threshold, i.e. whose entry of `levels` is at most the
/// threshold's index; when none does, picks `fallback_tau` (the global
/// minimum) and marks the pick as a fallback.
pub fn pick_lags(
    minima: &[usize],
    levels: &[usize],
    min_tau: usize,
    max_tau: usize,
    fallback_tau: usize,
    num_thresholds: usize,
) -> (picks: Vec<(usize, bool)>)
    requires
        minima@.len() == levels@.len(),
    ensures
        picks@.len() == num_thresholds,
        forall|i: int|
            0 <= i < num_thresholds ==> #[trigger] picks@[i] == spec_pick(
                minima@,
                levels@,
                min_tau,
                max_tau,
                fallback_tau,
                i,
            ),
{
    let mut picks: Vec<(usize, bool)> = Vec::with_capacity(num_thresholds);
    let mut i: usize = 0;
    while i < num_thresholds
        invariant
            minima@.len() == levels@.len(),
            i <= num_thresholds,
            picks@.len() == i,
            forall|j: int|
                0 <= j < i ==> #[trigger] picks@[j] == spec_pick(
                    minima@,
                    levels@,
                    min_tau,
                    max_tau,
                    fallback_tau,
                    j,
                ),
        decreases num_thresholds - i,
    {
        let mut k: usize = 0;
        while k < minima.len() && !(min_tau <= minima[k] && minima[k] <= max_tau && levels[k] <= i)
            invariant
                minima@.len() == levels@.len(),
                k <= minima@.len(),
                first_pick(minima@, levels@, min_tau, max_tau, i as int, 0) == first_pick(
                    minima@,
                    levels@,
                    min_tau,
                    max_tau,
                    i as int,
                    k as int,
                ),
            decreases minima@.len() - k,
        {
            k = k + 1;
        }
        if k < minima.len() {
            picks.push((minima[k], true));
        } else {
            picks.push((fallback_tau, false));
        }
        i = i + 1;
    }
    picks
}

/// The distinct values of `keys`, in the order of their first occurrence.
pub open spec fn first_seen(keys: Seq<usize>) -> Seq<usize>
    decreases keys.len(),
{
    if keys.len() == 0 {
        Seq::empty()
    } else {
        let before = first_seen(keys.drop_last());
        if before.contains(keys.last()) {
            before
        } else {
            before.push(keys.last())
        }
    }
}

/// No value occurs twice in `s`.
pub open spec fn all_distinct(s: Seq<usize>) -> bool {
    forall|a: int, b: int| 0 <= a < b < s.len() ==> s[a] != s[b]
}

proof fn lemma_first_seen_facts(keys: Seq<usize>)
    ensures
        all_distinct(first_seen(keys)),
        forall|i: int| 0 <= i < keys.len() ==> first_seen(keys).contains(#[trigger] keys[i]),
        forall|g: int|
            0 <= g < first_seen(keys).len() ==> keys.contains(#[trigger] first_seen(keys)[g]),
    decreases keys.len(),
{
    if keys.len() > 0 {
        let init = keys.drop_last();
        lemma_first_seen_facts(init);
        let before = first_seen(init);
        assert forall|i: int| 0 <= i < keys.len() implies first_seen(keys).contains(
            #[trigger] keys[i],
        ) by {
            if i < init.len() {
                assert(init[i] == keys[i]);
                assert(before.contains(init[i]));
                if !before.contains(keys.last()) {
                    let j = choose|j: int| 0 <= j < before.len() && before[j] == keys[i];
                    assert(before.push(keys.last())[j] == keys[i]);
                }
            } else {
                if !before.contains(keys.last()) {
                    assert(before.push(keys.last())[before.len() as int] == keys.last());
                }
            }
        }
        assert forall|g: int| 0 <= g < first_seen(keys).len() implies keys.contains(
            #[trigger] first_seen(keys)[g],
        ) by {
            if g < before.len() {
                assert(init.contains(before[g]));
                let j = choose|j: int| 0 <= j < init.len() && init[j] == before[g];
                assert(keys[j] == init[j]);
            } else {
                assert(keys[keys.len() - 1] == keys.last());
            }
        }
    }
}

/// Groups per-threshold picks by value: `groups` lists the distinct values
/// of `keys` in first-seen order, and `slots[i]` is the position of
/// `keys[i]` in `groups`.
pub fn group_first_seen(keys: &[usize]) -> (r: (Vec<usize>, Vec<usize>))
    ensures
        r.0@ == first_seen(keys@),
        all_distinct(r.0@),
        r.1@.len() == keys@.len(),
        forall|i: int|
            0 <= i < keys@.len() ==> (#[trigger] r.1@[i]) < r.0@.len() && r.0@[r.1@[i] as int]
                == keys@[i],
{
    let mut groups: Vec<usize> = Vec::new();
    let mut slots: Vec<usize> = Vec::new();
    let mut i: usize = 0;
    while i < keys.len()
        invariant
            i <= keys@.len(),
            groups@ == first_seen(keys@.subrange(0, i as int)),
            all_distinct(groups@),
            slots@.len() == i,
            forall|j: int|
                0 <= j < i ==> (#[trigger] slots@[j]) < groups@.len() && groups@[slots@[j] as int]
                    == keys@[j],
        decreases keys@.len() - i,
    {
        let key = keys[i];
        let mut g: usize = 0;
        while g < groups.len() && groups[g] != key
            invariant
                g <= groups@.len(),
                forall|h: int| 0 <= h < g ==> groups@[h] != key,
            decreases groups@.len() - g,
        {
            g = g + 1;
        }
        let found = g < groups.len();
        proof {
            let next = keys@.subrange(0, i + 1);
            assert(next.drop_last() =~= keys@.subrange(0, i as int));
            assert(next.last() == key);
            lemma_first_seen_facts(keys@.subrange(0, i as int));
        }
        if found {
            assert(groups@.contains(key));
            slots.push(g);
        } else {
            assert(!groups@.contains(key)) by {
                if groups@.contains(key) {
                    let h = choose|h: int| 0 <= h < groups@.len() && groups@[h] == key;
                }
            }
            slots.push(groups.len());
            groups.push(key);
        }
        i = i + 1;
    }
    assert(keys@.subrange(0, keys@.len() as int) =~= keys@);
    (groups, slots)
}

} // verus!
