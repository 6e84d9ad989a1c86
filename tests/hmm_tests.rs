use pyin_rs::hmm::{
    delta_index, pitch_transition_weights, predecessor_bins, state_from_index, state_index, HmmState,
    NUM_BINS, TRANSITION_WEIGHT_TOTAL,
};
use pyin_rs::viterbi::Backpointers;

#[test]
fn delta_index_window() {
    assert_eq!(delta_index(-25), Some(0));
    assert_eq!(delta_index(0), Some(25));
    assert_eq!(delta_index(25), Some(50));
    assert_eq!(delta_index(26), None);
    assert_eq!(delta_index(-26), None);
}

#[test]
fn transition_weights_are_triangular_and_sum_to_total() {
    let w = pitch_transition_weights();
    assert_eq!(w.len(), 51);
    assert_eq!(w[0], 1);
    assert_eq!(w[25], 26);
    assert_eq!(w[50], 1);
    assert_eq!(w[24], 25);
    assert_eq!(w.iter().sum::<u32>(), TRANSITION_WEIGHT_TOTAL);
    let probs: Vec<f64> = w.iter().map(|x| *x as f64 / TRANSITION_WEIGHT_TOTAL as f64).collect();
    assert!((probs.iter().sum::<f64>() - 1.0).abs() < 1e-12);
    assert!(probs.iter().all(|p| p.ln().is_finite()));
}

#[test]
fn state_index_round_trip() {
    assert_eq!(state_index(7, false), 7);
    assert_eq!(state_index(7, true), NUM_BINS + 7);
    assert_eq!(state_from_index(NUM_BINS + 7), HmmState { bin: 7, voiced: true });
    assert_eq!(state_from_index(599), HmmState { bin: 599, voiced: false });
    for idx in [0usize, 1, 599, 600, 1199] {
        let s = state_from_index(idx);
        assert_eq!(state_index(s.bin, s.voiced), idx);
    }
}

#[test]
fn predecessor_bins_clip_to_range() {
    assert_eq!(predecessor_bins(0), (0, 25));
    assert_eq!(predecessor_bins(10), (0, 35));
    assert_eq!(predecessor_bins(300), (275, 325));
    assert_eq!(predecessor_bins(599), (574, 599));
}

#[test]
fn backtrace_follows_backpointers() {
    let mut table = Backpointers::new();
    assert!(table.backtrace(3).is_empty());
    assert!(table.push_row(vec![0; 1200]));
    let mut row = vec![0usize; 1200];
    row[605] = 2;
    assert!(table.push_row(row));
    let mut row = vec![0usize; 1200];
    row[10] = 605;
    assert!(table.push_row(row));
    assert_eq!(table.frames(), 3);
    let path = table.backtrace(10);
    assert_eq!(
        path,
        vec![
            HmmState { bin: 2, voiced: false },
            HmmState { bin: 5, voiced: true },
            HmmState { bin: 10, voiced: false },
        ]
    );
}

#[test]
fn malformed_backpointer_rows_are_refused() {
    let mut table = Backpointers::new();
    assert!(!table.push_row(vec![0; 10]));
    let mut row = vec![0usize; 1200];
    row[4] = 1200;
    assert!(!table.push_row(row));
    assert_eq!(table.frames(), 0);
}
