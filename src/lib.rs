//! Verified core of a streaming monophonic pitch tracker (probabilistic
//! YIN): reassembly of little-endian PCM bytes, slicing of the sample stream
//! into numbered analysis frames, the pitch-bin state space of the HMM with
//! its triangular transition kernel, the Viterbi backpointer history and
//! backtrace, the lag bookkeeping of Stage 1, the hop feeder and note choice
//! of the MIDI interface, and the text form of acoustic fingerprints.

pub mod error;
pub mod feeder;
pub mod fingerprint;
pub mod framing;
pub mod hmm;
pub mod notes;
pub mod pcm;
pub mod stage1;
pub mod viterbi;

pub use error::PyinError;
pub use feeder::{ms_to_samples, HopFeeder, PitchConfig};
pub use framing::{FrameSlicer, IndexedFrame};
pub use hmm::{delta_index, state_from_index, state_index, HmmState, MAX_PITCH_JUMP, NUM_BINS, NUM_STATES};
pub use notes::{clamp_midi, last_frame_note, latest_voiced_note, UNVOICED_MIDI};
pub use pcm::{parse_pcm16le_to_i16, parse_pcm32le_words, PcmFormat};
pub use stage1::{group_first_seen, pick_lags, tau_range};
pub use viterbi::Backpointers;
