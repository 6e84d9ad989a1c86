//! Sliding analysis window: buffers samples and cuts them into overlapping
//! frames of `frame_size` samples, one every `hop_size` samples.

use crate::error::PyinError;
use vstd::arithmetic::div_mod::{lemma_fundamental_div_mod_converse_div};
use vstd::prelude::*;

verus! {

/// Number of frames that a buffer of `len` samples yields.
pub open spec fn frame_count(len: nat, frame_size: nat, hop_size: nat) -> nat {
    if len >= frame_size && hop_size > 0 {
        ((len - frame_size) as nat / hop_size + 1) as nat
    } else {
        0
    }
}

/// One analysis frame, with its position in the stream.
pub struct IndexedFrame<T> {
    pub index: u64,
    pub samples: Vec<T>,
}

/// The frames of `out` are numbered `first`, `first + 1`, ... in order.
pub open spec fn numbered_from<T>(out: Seq<IndexedFrame<T>>, first: int) -> bool {
    forall|k: int| 0 <= k < out.len() ==> #[trigger] out[k].index == first + k
}

/// Frame numbering across calls: when one call emits frames numbered from
/// `first` and the next call continues where it stopped, the two batches
/// together are numbered consecutively from `first`, each frame once.
pub proof fn lemma_numbering_continues<T>(
    out1: Seq<IndexedFrame<T>>,
    out2: Seq<IndexedFrame<T>>,
    first: int,
)
    requires
        numbered_from(out1, first),
        numbered_from(out2, first + out1.len()),
    ensures
        numbered_from(out1 + out2, first),
        forall|i: int, j: int|
            0 <= i < j < (out1 + out2).len() ==> (out1 + out2)[i].index < (out1 + out2)[j].index,
{
    let all = out1 + out2;
    assert forall|k: int| 0 <= k < all.len() implies #[trigger] all[k].index == first + k by {
        if k >= out1.len() {
            assert(all[k] == out2[k - out1.len()]);
        }
    }
    assert forall|i: int, j: int|
        0 <= i < j < all.len() implies all[i].index < all[j].index by {
        assert(all[i].index == first + i);
        assert(all[j].index == first + j);
    }
}

/// Sample buffer of the streaming engine.
pub struct FrameSlicer<T> {
    buffer: Vec<T>,
    frame_size: usize,
    hop_size: usize,
    next_index: u64,
}

impl<T: Copy> FrameSlicer<T> {
    pub closed spec fn spec_buffer(&self) -> Seq<T> {
        self.buffer@
    }

    pub closed spec fn spec_frame_size(&self) -> nat {
        self.frame_size as nat
    }

    pub closed spec fn spec_hop_size(&self) -> nat {
        self.hop_size as nat
    }

    pub closed spec fn spec_next_index(&self) -> nat {
        self.next_index as nat
    }

    /// The hop is positive, frames overlap (or abut), and less than one
    /// frame stays buffered between calls.
    pub open spec fn wf(&self) -> bool {
        &&& 0 < self.spec_hop_size() <= self.spec_frame_size()
        &&& self.spec_buffer().len() < self.spec_frame_size()
    }

    /// A slicer for frames of `frame_size` samples taken every `hop_size`
    /// samples; refused unless `0 < hop_size <= frame_size`.
    pub fn new(frame_size: usize, hop_size: usize) -> (r: Result<FrameSlicer<T>, PyinError>)
        ensures
            r.is_ok() <==> 0 < hop_size <= frame_size,
            r matches Ok(s) ==> {
                &&& s.wf()
                &&& s.spec_frame_size() == frame_size
                &&& s.spec_hop_size() == hop_size
                &&& s.spec_next_index() == 0
                &&& s.spec_buffer().len() == 0
            },
    {
        if frame_size == 0 || hop_size == 0 {
            return Err(PyinError::InvalidConfig("frame_size and hop_size must be > 0".to_string()));
        }
        if frame_size < hop_size {
            return Err(
                PyinError::InvalidConfig("frame_size must be >= hop_size".to_string()),
            );
        }
        Ok(FrameSlicer { buffer: Vec::new(), frame_size, hop_size, next_index: 0 })
    }

    pub fn frame_size(&self) -> (r: usize)
        ensures
            r == self.spec_frame_size(),
    {
        self.frame_size
    }

    pub fn hop_size(&self) -> (r: usize)
        ensures
            r == self.spec_hop_size(),
    {
        self.hop_size
    }

    /// Index that the next emitted frame will carry.
    pub fn next_index(&self) -> (r: u64)
        ensures
            r == self.spec_next_index(),
    {
        self.next_index
    }

    /// Number of samples waiting for the next frame.
    pub fn buffered(&self) -> (r: usize)
        ensures
            r == self.spec_buffer().len(),
    {
        self.buffer.len()
    }

    /// Drops the buffered samples and restarts the numbering at 0.
    pub fn reset(&mut self)
        requires
            old(self).wf(),
        ensures
            final(self).wf(),
            final(self).spec_buffer().len() == 0,
            final(self).spec_next_index() == 0,
            final(self).spec_frame_size() == old(self).spec_frame_size(),
            final(self).spec_hop_size() == old(self).spec_hop_size(),
    {
        self.buffer = Vec::new();
        self.next_index = 0;
    }

    /// Appends `samples` to the buffer and cuts every complete frame: frame
    /// `k` of the call holds the samples from `k * hop_size` on of the
    /// buffer followed by `samples`; what was not yet the start of a frame
    /// stays buffered.
    pub fn push(&mut self, samples: &[T]) -> (out: Vec<IndexedFrame<T>>)
        requires
            old(self).wf(),
            old(self).spec_next_index() + old(self).spec_frame_size() + samples@.len()
                <= u64::MAX,
        ensures
            ({
                let all = old(self).spec_buffer() + samples@;
                let fs = old(self).spec_frame_size();
                let hs = old(self).spec_hop_size();
                let n = frame_count(all.len(), fs, hs);
                &&& final(self).wf()
                &&& final(self).spec_frame_size() == fs
                &&& final(self).spec_hop_size() == hs
                &&& out@.len() == n
                &&& numbered_from(out@, old(self).spec_next_index() as int)
                &&& forall|k: int|
                    0 <= k < n ==> (#[trigger] out@[k]).samples@ == all.subrange(
                        k * hs,
                        k * hs + fs,
                    )
                &&& final(self).spec_buffer() == all.subrange((n * hs) as int, all.len() as int)
                &&& final(self).spec_next_index() == old(self).spec_next_index() + n
            }),
    {
        let ghost all_view = self.buffer@ + samples@;
        let ghost first = self.next_index as int;
        let fs = self.frame_size;
        let hs = self.hop_size;
        let mut all: Vec<T> = Vec::new();
        let mut i: usize = 0;
        while i < self.buffer.len()
            invariant
                i <= self.buffer@.len(),
                all@ == self.buffer@.subrange(0, i as int),
            decreases self.buffer@.len() - i,
        {
            all.push(self.buffer[i]);
            i = i + 1;
            assert(all@ =~= self.buffer@.subrange(0, i as int));
        }
        let mut j: usize = 0;
        while j < samples.len()
            invariant
                j <= samples@.len(),
                all@ == self.buffer@ + samples@.subrange(0, j as int),
            decreases samples@.len() - j,
        {
            all.push(samples[j]);
            j = j + 1;
            assert(all@ =~= self.buffer@ + samples@.subrange(0, j as int));
        }
        assert(samples@.subrange(0, samples@.len() as int) =~= samples@);
        assert(all@ == all_view);
        let mut out: Vec<IndexedFrame<T>> = Vec::new();
        let mut start: usize = 0;
        assert(out@.len() == 0);
        assert(start == out@.len() * hs) by (nonlinear_arith)
            requires
                out@.len() == 0,
                start == 0,
        ;
        let mut index: u64 = self.next_index;
        while all.len() - start >= fs
            invariant
                all@ == all_view,
                0 < hs <= fs,
                start == out@.len() * hs,
                start <= all@.len(),
                index == first + out@.len(),
                first + fs + samples@.len() <= u64::MAX,
                all_view.len() < fs + samples@.len(),
                out@.len() > 0 ==> (out@.len() - 1) * hs + fs <= all_view.len(),
                numbered_from(out@, first),
                forall|k: int|
                    0 <= k < out@.len() ==> (#[trigger] out@[k]).samples@ == all_view.subrange(
                        k * hs,
                        k * hs + fs,
                    ),
            decreases all@.len() - start,
        {
            let mut frame: Vec<T> = Vec::with_capacity(fs);
            let mut p: usize = 0;
            while p < fs
                invariant
                    start + fs <= all@.len(),
                    all@.len() <= usize::MAX,
                    p <= fs,
                    frame@ == all@.subrange(start as int, start + p),
                decreases fs - p,
            {
                frame.push(all[start + p]);
                p = p + 1;
                assert(frame@ =~= all@.subrange(start as int, start + p));
            }
            proof {
                assert(out@.len() * hs <= all_view.len());
                assert(out@.len() <= all_view.len()) by (nonlinear_arith)
                    requires
                        out@.len() * hs <= all_view.len(),
                        hs > 0,
                ;
            }
            let ghost before = out@;
            out.push(IndexedFrame { index, samples: frame });
            proof {
                assert forall|k: int| 0 <= k < out@.len() implies #[trigger] out@[k].index == first
                    + k by {
                    if k < before.len() {
                        assert(out@[k] == before[k]);
                    }
                }
                assert((out@.len() - 1) * hs == start);
                assert(out@.len() * hs == start + hs) by (nonlinear_arith)
                    requires
                        (out@.len() - 1) * hs == start,
                ;
            }
            index = index + 1;
            start = start + hs;
        }
        proof {
            let n = out@.len();
            let len = all_view.len();
            if len >= fs {
                assert(n > 0);
                let r = len - fs - (n - 1) * hs;
                assert(0 <= r < hs) by (nonlinear_arith)
                    requires
                        (n - 1) * hs + fs <= len,
                        len < n * hs + fs,
                        r == len - fs - (n - 1) * hs,
                ;
                assert((len - fs) as int == (n - 1) * hs + r);
                lemma_fundamental_div_mod_converse_div((len - fs) as int, hs as int, n - 1, r);
            } else {
                if n > 0 {
                    assert((n - 1) * hs >= 0) by (nonlinear_arith)
                        requires
                            n >= 1,
                            hs > 0,
                    ;
                }
                assert(n == 0);
            }
            assert(n == frame_count(len, fs as nat, hs as nat));
        }
        let mut rest: Vec<T> = Vec::new();
        let mut q: usize = start;
        while q < all.len()
            invariant
                start <= q <= all@.len(),
                rest@ == all@.subrange(start as int, q as int),
            decreases all@.len() - q,
        {
            rest.push(all[q]);
            q = q + 1;
            assert(rest@ =~= all@.subrange(start as int, q as int));
        }
        self.buffer = rest;
        self.next_index = index;
        out
    }
}

} // verus!
