//! Backpointer history of the Viterbi tracker and the backtrace of the best
//! state path through it.

use crate::hmm::{spec_state_from_index, state_from_index, HmmState, NUM_BINS, NUM_STATES};
use vstd::prelude::*;

verus! {

/// A backpointer row is well formed when it names, for each of the
/// `NUM_STATES` states, a predecessor state.
pub open spec fn row_ok(row: Seq<usize>) -> bool {
    &&& row.len() == NUM_STATES
    &&& forall|i: int| 0 <= i < row.len() ==> #[trigger] row[i] < NUM_STATES
}

/// State index at frame `t` of the path that ends in state `last` and
/// follows the backpointers `rows` towards the first frame.
pub open spec fn traced(rows: Seq<Seq<usize>>, last: usize, t: int) -> usize
    decreases rows.len() - t,
{
    if t + 1 >= rows.len() || t < 0 {
        last
    } else {
        rows[t + 1][traced(rows, last, t + 1) as int]
    }
}

/// One backpointer row per frame pushed into the tracker.
pub struct Backpointers {
    rows: Vec<Vec<usize>>,
}

impl View for Backpointers {
    type V = Seq<Seq<usize>>;

    closed spec fn view(&self) -> Seq<Seq<usize>> {
        self.rows@.map_values(|r: Vec<usize>| r@)
    }
}

proof fn lemma_traced_in_range(rows: Seq<Seq<usize>>, last: usize, t: int)
    requires
        forall|k: int| 0 <= k < rows.len() ==> row_ok(#[trigger] rows[k]),
        last < NUM_STATES,
    ensures
        traced(rows, last, t) < NUM_STATES,
    decreases rows.len() - t,
{
    if !(t + 1 >= rows.len() || t < 0) {
        lemma_traced_in_range(rows, last, t + 1);
        assert(row_ok(rows[t + 1]));
    }
}

fn row_is_valid(row: &Vec<usize>) -> (r: bool)
    ensures
        r == row_ok(row@),
{
    if row.len() != NUM_STATES {
        return false;
    }
    let mut i: usize = 0;
    while i < row.len()
        invariant
            i <= row@.len(),
            forall|j: int| 0 <= j < i ==> #[trigger] row@[j] < NUM_STATES,
        decreases row@.len() - i,
    {
        if row[i] >= NUM_STATES {
            return false;
        }
        i = i + 1;
    }
    true
}

impl Backpointers {
    /// Every stored row is well formed.
    pub open spec fn wf(&self) -> bool {
        forall|t: int| 0 <= t < self@.len() ==> row_ok(#[trigger] self@[t])
    }

    pub fn new() -> (r: Backpointers)
        ensures
            r@ == Seq::<Seq<usize>>::empty(),
            r.wf(),
    {
        let r = Backpointers { rows: Vec::new() };
        assert(r@ =~= Seq::<Seq<usize>>::empty());
        r
    }

    /// Number of frames recorded.
    pub fn frames(&self) -> (r: usize)
        ensures
            r == self@.len(),
    {
        self.rows.len()
    }

    /// Appends the row of a new frame, if it is well formed; returns whether
    /// it was appended.
    pub fn push_row(&mut self, row: Vec<usize>) -> (accepted: bool)
        requires
            old(self).wf(),
        ensures
            final(self).wf(),
            accepted == row_ok(row@),
            accepted ==> final(self)@ == old(self)@.push(row@),
            !accepted ==> final(self)@ == old(self)@,
    {
        if !row_is_valid(&row) {
            return false;
        }
        let ghost row_view = row@;
        self.rows.push(row);
        assert(self@ =~= old(self)@.push(row_view));
        true
    }

    /// The state path that ends in state `last` at the latest frame and
    /// follows the backpointers back to the first frame; empty when no frame
    /// was recorded.
    pub fn backtrace(&self, last: usize) -> (path: Vec<HmmState>)
        requires
            self.wf(),
            last < NUM_STATES,
        ensures
            path@.len() == self@.len(),
            forall|t: int|
                0 <= t < path@.len() ==> #[trigger] path@[t] == spec_state_from_index(
                    traced(self@, last, t) as int,
                ),
            forall|t: int| 0 <= t < path@.len() ==> #[trigger] path@[t].bin < NUM_BINS,
    {
        let n = self.rows.len();
        let ghost rows = self@;
        let mut path: Vec<HmmState> = Vec::new();
        if n == 0 {
            return path;
        }
        // Indices from the last frame back to the first.
        let mut reversed: Vec<usize> = Vec::with_capacity(n);
        reversed.push(last);
        let mut cur: usize = last;
        let mut t: usize = n - 1;
        while t > 0
            invariant
                n == rows.len(),
                rows == self@,
                self.wf(),
                last < NUM_STATES,
                t < n,
                reversed@.len() == n - t,
                cur == traced(rows, last, t as int),
                cur < NUM_STATES,
                forall|k: int|
                    0 <= k < reversed@.len() ==> #[trigger] reversed@[k] == traced(
                        rows,
                        last,
                        n - 1 - k,
                    ),
            decreases t,
        {
            proof {
                assert(row_ok(rows[t as int]));
                assert(self.rows@[t as int]@ == rows[t as int]);
            }
            cur = self.rows[t][cur];
            t = t - 1;
            reversed.push(cur);
            proof {
                lemma_traced_in_range(rows, last, t as int);
            }
        }
        let mut k: usize = 0;
        while k < n
            invariant
                n == rows.len(),
                reversed@.len() == n,
                last < NUM_STATES,
                self.wf(),
                rows == self@,
                path@.len() == k,
                k <= n,
                forall|j: int|
                    0 <= j < reversed@.len() ==> #[trigger] reversed@[j] == traced(
                        rows,
                        last,
                        n - 1 - j,
                    ),
                forall|j: int|
                    0 <= j < k ==> #[trigger] path@[j] == spec_state_from_index(
                        traced(rows, last, j) as int,
                    ),
                forall|j: int| 0 <= j < k ==> #[trigger] path@[j].bin < NUM_BINS,
            decreases n - k,
        {
            let idx = reversed[n - 1 - k];
            proof {
                lemma_traced_in_range(rows, last, k as int);
            }
            path.push(state_from_index(idx));
            k = k + 1;
        }
        path
    }
}

} // verus!
