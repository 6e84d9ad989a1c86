//! MIDI note quantization and the note reported per hop by the streaming
//! interfaces.

use vstd::prelude::*;

verus! {

/// Note value reported when no voiced frame was produced.
pub const UNVOICED_MIDI: u16 = 255;

/// `rounded` clamped to the MIDI range `0..=127`.
pub open spec fn spec_clamp_midi(rounded: i64) -> u8 {
    if rounded < 0 {
        0
    } else if rounded > 127 {
        127
    } else {
        rounded as u8
    }
}

/// The MIDI note of an already rounded note number.
pub fn clamp_midi(rounded: i64) -> (r: u8)
    ensures
        r == spec_clamp_midi(rounded),
        r <= 127,
{
    if rounded < 0 {
        0
    } else if rounded > 127 {
        127
    } else {
        rounded as u8
    }
}

/// The note of the last voiced frame among `notes`, or `current` when none
/// of them is voiced.
pub open spec fn latest_voiced(notes: Seq<Option<u8>>, current: u16) -> u16
    decreases notes.len(),
{
    if notes.len() == 0 {
        current
    } else if let Some(n) = notes.last() {
        n as u16
    } else {
        latest_voiced(notes.drop_last(), current)
    }
}

/// Folds a batch of per-frame notes (`None` for unvoiced frames) into the
/// latest voiced note seen so far.
pub fn latest_voiced_note(notes: &[Option<u8>], current: u16) -> (r: u16)
    ensures
        r == latest_voiced(notes@, current),
{
    let mut latest = current;
    let mut i: usize = 0;
    while i < notes.len()
        invariant
            i <= notes@.len(),
            latest == latest_voiced(notes@.subrange(0, i as int), current),
        decreases notes@.len() - i,
    {
        proof {
            let next = notes@.subrange(0, i + 1);
            assert(next.drop_last() =~= notes@.subrange(0, i as int));
            assert(next.last() == notes@[i as int]);
        }
        if let Some(n) = notes[i] {
            latest = n as u16;
        }
        i = i + 1;
    }
    assert(notes@.subrange(0, notes@.len() as int) =~= notes@);
    latest
}

/// The note of the last frame of a batch, or `UNVOICED_MIDI` (as `u8`) when
/// the batch is empty or its last frame is unvoiced.
pub fn last_frame_note(notes: &[Option<u8>]) -> (r: u8)
    ensures
        notes@.len() > 0 && notes@.last() is Some ==> r == notes@.last().unwrap(),
        notes@.len() == 0 || notes@.last() is None ==> r == UNVOICED_MIDI,
{
    if notes.len() == 0 {
        return UNVOICED_MIDI as u8;
    }
    match notes[notes.len() - 1] {
        Some(n) => n,
        None => UNVOICED_MIDI as u8,
    }
}

} // verus!
