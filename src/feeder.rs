//! Hop feeder of the MIDI streaming interface: queues 16-bit samples parsed
//! from arbitrary byte chunks and hands them to the engine one hop at a time,
//! once a whole analysis window is queued.

use crate::error::PyinError;
use crate::pcm::{carry_of, decode_i16le, encode_i16le, encode_pcm16le, parse_pcm16le_to_i16};
use std::collections::VecDeque;
use vstd::prelude::*;

verus! {

/// Stream timing of the MIDI interface, in milliseconds.
pub struct PitchConfig {
    pub sample_rate_hz: u32,
    pub update_interval_ms: u32,
    pub window_size_ms: u32,
}

/// `ms` milliseconds at `sample_rate_hz`, rounded to the nearest sample
/// (halves up), at least one sample (and at most `usize::MAX`).
pub open spec fn spec_ms_to_samples(sample_rate_hz: u32, ms: u32) -> int {
    let n = (sample_rate_hz as int * ms as int + 500) / 1000;
    if n < 1 {
        1
    } else if n > usize::MAX {
        usize::MAX as int
    } else {
        n
    }
}

pub fn ms_to_samples(sample_rate_hz: u32, ms: u32) -> (r: usize)
    ensures
        r == spec_ms_to_samples(sample_rate_hz, ms),
        1 <= r <= 0xffff_ffff_ffff_ffffu64 / 1000 + 1,
{
    assert(sample_rate_hz as int * ms as int <= 0xffff_fffe_0000_0001) by (nonlinear_arith)
        requires
            sample_rate_hz <= 0xffff_ffffu32,
            ms <= 0xffff_ffffu32,
    ;
    let product: u64 = sample_rate_hz as u64 * ms as u64;
    let n: u64 = (product + 500) / 1000;
    if n < 1 {
        1
    } else if n > usize::MAX as u64 {
        usize::MAX
    } else {
        n as usize
    }
}

impl PitchConfig {
    /// Analysis window and hop, in samples; refused when the window is
    /// shorter than the hop.
    pub fn frame_and_hop(&self) -> (r: Result<(usize, usize), PyinError>)
        ensures
            ({
                let frame = spec_ms_to_samples(self.sample_rate_hz, self.window_size_ms);
                let hop = spec_ms_to_samples(self.sample_rate_hz, self.update_interval_ms);
                &&& r.is_ok() <==> frame >= hop
                &&& r matches Ok(sizes) ==> sizes.0 == frame && sizes.1 == hop
            }),
    {
        let frame = ms_to_samples(self.sample_rate_hz, self.window_size_ms);
        let hop = ms_to_samples(self.sample_rate_hz, self.update_interval_ms);
        if frame < hop {
            return Err(PyinError::InvalidConfig("window_size must be >= update_interval".to_string()));
        }
        Ok((frame, hop))
    }
}

/// Sample queue and byte carry of a 16-bit little-endian stream.
pub struct HopFeeder {
    queue: VecDeque<i16>,
    leftover: Vec<u8>,
    frame_size: usize,
    hop_size: usize,
}

impl HopFeeder {
    pub closed spec fn spec_queue(&self) -> Seq<i16> {
        self.queue@
    }

    pub closed spec fn spec_carry(&self) -> Seq<u8> {
        self.leftover@
    }

    pub closed spec fn spec_frame_size(&self) -> nat {
        self.frame_size as nat
    }

    pub closed spec fn spec_hop_size(&self) -> nat {
        self.hop_size as nat
    }

    /// At most one byte of an incomplete sample is carried.
    pub open spec fn wf(&self) -> bool {
        self.spec_carry().len() <= 1
    }

    /// An empty feeder for windows of `frame_size` samples advanced by
    /// `hop_size` samples.
    pub fn new(frame_size: usize, hop_size: usize) -> (r: HopFeeder)
        ensures
            r.wf(),
            r.spec_queue().len() == 0,
            r.spec_carry().len() == 0,
            r.spec_frame_size() == frame_size,
            r.spec_hop_size() == hop_size,
    {
        HopFeeder { queue: VecDeque::new(), leftover: Vec::new(), frame_size, hop_size }
    }

    /// A feeder for the timing of `sample_rate_hz`, `window_ms`, `hop_ms`.
    pub fn for_timing(sample_rate_hz: u32, window_ms: u32, hop_ms: u32) -> (r: HopFeeder)
        ensures
            r.wf(),
            r.spec_queue().len() == 0,
            r.spec_carry().len() == 0,
            r.spec_frame_size() == spec_ms_to_samples(sample_rate_hz, window_ms),
            r.spec_hop_size() == spec_ms_to_samples(sample_rate_hz, hop_ms),
    {
        let frame = ms_to_samples(sample_rate_hz, window_ms);
        let hop = ms_to_samples(sample_rate_hz, hop_ms);
        HopFeeder::new(frame, hop)
    }

    pub fn frame_size(&self) -> (r: usize)
        ensures
            r == self.spec_frame_size(),
    {
        self.frame_size
    }

    pub fn hop_size(&self) -> (r: usize)
        ensures
            r == self.spec_hop_size(),
    {
        self.hop_size
    }

    /// Whether the window holds at least one hop, as the engine needs.
    pub fn is_valid_config(&self) -> (r: bool)
        ensures
            r == (self.spec_frame_size() >= self.spec_hop_size()),
    {
        self.frame_size >= self.hop_size
    }

    /// Number of queued samples.
    pub fn queued(&self) -> (r: usize)
        ensures
            r == self.spec_queue().len(),
    {
        self.queue.len()
    }

    /// The queued sample at position `i`, if there is one.
    pub fn queued_sample(&self, i: usize) -> (r: Option<i16>)
        ensures
            i < self.spec_queue().len() ==> r == Some(self.spec_queue()[i as int]),
            i >= self.spec_queue().len() ==> r.is_none(),
    {
        if i < self.queue.len() {
            Some(self.queue[i])
        } else {
            None
        }
    }

    /// The carried byte of an incomplete sample, if any.
    pub fn carry_byte(&self) -> (r: Option<u8>)
        requires
            self.wf(),
        ensures
            self.spec_carry().len() == 1 ==> r == Some(self.spec_carry()[0]),
            self.spec_carry().len() == 0 ==> r.is_none(),
    {
        if self.leftover.len() == 1 {
            Some(self.leftover[0])
        } else {
            None
        }
    }

    /// Parses `bytes`, after the carried byte, onto the queue.
    pub fn push_bytes(&mut self, bytes: &[u8])
        requires
            old(self).wf(),
        ensures
            final(self).wf(),
            final(self).spec_queue() == old(self).spec_queue() + decode_i16le(
                old(self).spec_carry() + bytes@,
            ),
            final(self).spec_carry() == carry_of(old(self).spec_carry() + bytes@, 2),
            final(self).spec_frame_size() == old(self).spec_frame_size(),
            final(self).spec_hop_size() == old(self).spec_hop_size(),
    {
        let ghost before = self.queue@;
        let samples = parse_pcm16le_to_i16(bytes, &mut self.leftover);
        let ghost carry = self.leftover@;
        let mut i: usize = 0;
        while i < samples.len()
            invariant
                i <= samples@.len(),
                self.leftover@ == carry,
                self.frame_size == old(self).frame_size,
                self.hop_size == old(self).hop_size,
                self.queue@ == before + samples@.subrange(0, i as int),
            decreases samples@.len() - i,
        {
            self.queue.push_back(samples[i]);
            i = i + 1;
            assert(self.queue@ =~= before + samples@.subrange(0, i as int));
        }
        assert(samples@.subrange(0, samples@.len() as int) =~= samples@);
    }

    /// Once a whole window is queued, takes the next hop of samples off the
    /// queue and returns them as little-endian bytes; `None`, with nothing
    /// changed, while fewer than `frame_size` samples are queued.
    pub fn next_hop(&mut self) -> (r: Option<Vec<u8>>)
        requires
            old(self).wf(),
        ensures
            final(self).wf(),
            final(self).spec_carry() == old(self).spec_carry(),
            final(self).spec_frame_size() == old(self).spec_frame_size(),
            final(self).spec_hop_size() == old(self).spec_hop_size(),
            ({
                let q = old(self).spec_queue();
                let h = if q.len() < old(self).spec_hop_size() {
                    q.len()
                } else {
                    old(self).spec_hop_size()
                };
                if q.len() >= old(self).spec_frame_size() {
                    &&& r matches Some(bytes)
                    &&& bytes@ == encode_i16le(q.subrange(0, h as int))
                    &&& final(self).spec_queue() == q.subrange(h as int, q.len() as int)
                } else {
                    &&& r.is_none()
                    &&& final(self).spec_queue() == q
                }
            }),
    {
        if self.queue.len() < self.frame_size {
            return None;
        }
        let ghost q = self.queue@;
        let h: usize = if self.queue.len() < self.hop_size {
            self.queue.len()
        } else {
            self.hop_size
        };
        let mut hop: Vec<i16> = Vec::with_capacity(h);
        let mut i: usize = 0;
        while i < h
            invariant
                h <= q.len(),
                i <= h,
                hop@ == q.subrange(0, i as int),
                self.queue@ == q.subrange(i as int, q.len() as int),
                self.leftover@ == old(self).leftover@,
                self.frame_size == old(self).frame_size,
                self.hop_size == old(self).hop_size,
            decreases h - i,
        {
            let s = self.queue.pop_front();
            match s {
                Some(v) => {
                    hop.push(v);
                },
                None => {},
            }
            i = i + 1;
            assert(hop@ =~= q.subrange(0, i as int));
            assert(self.queue@ =~= q.subrange(i as int, q.len() as int));
        }
        Some(encode_pcm16le(hop.as_slice()))
    }
}

} // verus!
