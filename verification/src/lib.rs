//! Core of a small music player: the streaming decode-and-playback pipeline.
//!
//! The library owns the logic of the pipeline: scalar smoothing for speed and
//! volume, a pull-based decode/buffer engine over a compressed bitstream, the
//! real-time callback that fills an output region with interleaved samples,
//! and relative seeking.  Scalars that a user thinks of as real numbers
//! (speed, volume, playback position, progress) are carried here as
//! fixed-point integers, so that every step of the arithmetic is verified.

mod error;
mod log;
mod media;
mod note;
mod playback;
mod smooth;
mod strerr;

pub use error::Error;
pub use log::{Log, LogEntry, LogMessage};
pub use media::{Decoded, TrackMeta};
pub use playback::{
    advanced_position, frame_base_index, frame_base_of, sat_add_u64, scale_sample, scaled_sample,
    seek_seconds, select_from, select_track, skip_target, validate_track, Playback, SelectedTrack,
    FP, MAX_LOOKUP_REFILLS, MAX_REFILL_PACKETS, SKIP_SECS,
};
pub use note::Note;
pub use smooth::{interp, Smooth, TimedSmooth, RATIO_DEN};
pub use strerr::Strerr;
