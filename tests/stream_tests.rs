use pyin_rs::feeder::{ms_to_samples, HopFeeder, PitchConfig};
use pyin_rs::framing::FrameSlicer;
use pyin_rs::notes::{clamp_midi, last_frame_note, latest_voiced_note, UNVOICED_MIDI};
use pyin_rs::pcm::encode_pcm16le;
use pyin_rs::stage1::{group_first_seen, pick_lags, tau_range};
use pyin_rs::PyinError;

#[test]
fn slicer_cuts_overlapping_frames_across_pushes() {
    let mut slicer = FrameSlicer::<i32>::new(4, 2).unwrap();
    let first = slicer.push(&[0, 1, 2]);
    assert!(first.is_empty());
    assert_eq!(slicer.buffered(), 3);
    let second = slicer.push(&[3, 4, 5, 6]);
    assert_eq!(second.len(), 2);
    assert_eq!(second[0].index, 0);
    assert_eq!(second[0].samples, vec![0, 1, 2, 3]);
    assert_eq!(second[1].index, 1);
    assert_eq!(second[1].samples, vec![2, 3, 4, 5]);
    assert_eq!(slicer.buffered(), 3);
    let third = slicer.push(&[7]);
    assert_eq!(third.len(), 1);
    assert_eq!(third[0].index, 2);
    assert_eq!(third[0].samples, vec![4, 5, 6, 7]);
    assert_eq!(slicer.next_index(), 3);
}

#[test]
fn frame_indices_are_consecutive_from_zero() {
    let mut slicer = FrameSlicer::<i16>::new(5, 3).unwrap();
    let mut indices = Vec::new();
    for chunk in [1usize, 7, 2, 0, 11, 4] {
        let samples = vec![0i16; chunk];
        for f in slicer.push(&samples) {
            indices.push(f.index);
        }
    }
    let expected: Vec<u64> = (0..indices.len() as u64).collect();
    assert_eq!(indices, expected);
    assert_eq!(indices.len(), 7);
    slicer.reset();
    assert_eq!(slicer.next_index(), 0);
    assert_eq!(slicer.buffered(), 0);
}

#[test]
fn slicer_rejects_bad_sizes() {
    assert!(matches!(FrameSlicer::<i16>::new(0, 0), Err(PyinError::InvalidConfig(_))));
    assert!(matches!(FrameSlicer::<i16>::new(4, 0), Err(PyinError::InvalidConfig(_))));
    assert!(matches!(FrameSlicer::<i16>::new(4, 5), Err(PyinError::InvalidConfig(_))));
    assert!(FrameSlicer::<i16>::new(4, 4).is_ok());
}

#[test]
fn ms_to_samples_rounds_half_up_and_is_positive() {
    assert_eq!(ms_to_samples(44_100, 5), 221);
    assert_eq!(ms_to_samples(44_100, 43), 1896);
    assert_eq!(ms_to_samples(48_000, 10), 480);
    assert_eq!(ms_to_samples(48_000, 0), 1);
    assert_eq!(ms_to_samples(1, 1), 1);
}

#[test]
fn pitch_config_sizes() {
    let ok = PitchConfig { sample_rate_hz: 48_000, update_interval_ms: 10, window_size_ms: 20 };
    assert_eq!(ok.frame_and_hop().unwrap(), (960, 480));
    let bad = PitchConfig { sample_rate_hz: 48_000, update_interval_ms: 20, window_size_ms: 10 };
    assert!(matches!(bad.frame_and_hop(), Err(PyinError::InvalidConfig(_))));
}

#[test]
fn feeder_hands_out_hops_once_a_window_is_queued() {
    let mut feeder = HopFeeder::new(4, 2);
    let samples: Vec<i16> = vec![1, -2, 3, -4, 5];
    let bytes = encode_pcm16le(&samples);
    feeder.push_bytes(&bytes[..5]);
    assert_eq!(feeder.queued(), 2);
    assert_eq!(feeder.next_hop(), None);
    feeder.push_bytes(&bytes[5..]);
    assert_eq!(feeder.queued(), 5);
    assert_eq!(feeder.next_hop(), Some(encode_pcm16le(&[1, -2])));
    assert_eq!(feeder.queued(), 3);
    assert_eq!(feeder.next_hop(), None);
    assert_eq!(feeder.queued_sample(0), Some(3));
    assert_eq!(feeder.carry_byte(), None);
}

#[test]
fn feeder_config_validity() {
    assert!(HopFeeder::for_timing(48_000, 20, 10).is_valid_config());
    assert!(!HopFeeder::for_timing(48_000, 10, 20).is_valid_config());
    assert_eq!(HopFeeder::for_timing(44_100, 43, 5).frame_size(), 1896);
    assert_eq!(HopFeeder::for_timing(44_100, 43, 5).hop_size(), 221);
}

#[test]
fn midi_clamping() {
    assert_eq!(clamp_midi(57), 57);
    assert_eq!(clamp_midi(-3), 0);
    assert_eq!(clamp_midi(128), 127);
    assert_eq!(clamp_midi(127), 127);
}

#[test]
fn latest_voiced_note_keeps_last_voiced() {
    assert_eq!(latest_voiced_note(&[], UNVOICED_MIDI), 255);
    assert_eq!(latest_voiced_note(&[Some(60), None, Some(62), None], UNVOICED_MIDI), 62);
    assert_eq!(latest_voiced_note(&[None, None], 41), 41);
}

#[test]
fn last_frame_note_uses_last_frame_only() {
    assert_eq!(last_frame_note(&[]), 255);
    assert_eq!(last_frame_note(&[Some(60), None]), 255);
    assert_eq!(last_frame_note(&[None, Some(64)]), 64);
}

#[test]
fn tau_range_clamps() {
    assert_eq!(tau_range(40, 960, 2048), (40, 960));
    assert_eq!(tau_range(40, 5000, 2048), (40, 2047));
    assert_eq!(tau_range(0, 100, 2048), (1, 100));
    assert_eq!(tau_range(300, 100, 2048), (100, 100));
    assert_eq!(tau_range(5, 10, 0), (0, 0));
}

#[test]
fn grouping_keeps_first_seen_order() {
    let (groups, slots) = group_first_seen(&[40, 80, 40, 120, 80, 80]);
    assert_eq!(groups, vec![40, 80, 120]);
    assert_eq!(slots, vec![0, 1, 0, 2, 1, 1]);
    let (groups, slots) = group_first_seen(&[]);
    assert!(groups.is_empty() && slots.is_empty());
}

#[test]
fn pick_lags_takes_first_qualifying_minimum() {
    // Minima at lags 30 (out of range), 60 (below from threshold 5 on),
    // 90 (below from threshold 2 on).
    let picks = pick_lags(&[30, 60, 90], &[0, 5, 2], 40, 100, 77, 7);
    assert_eq!(
        picks,
        vec![
            (77, false),
            (77, false),
            (90, true),
            (90, true),
            (90, true),
            (60, true),
            (60, true),
        ]
    );
    assert_eq!(pick_lags(&[], &[], 1, 10, 4, 2), vec![(4, false), (4, false)]);
}
