//! Audio normalization and wake-phrase detection for a speech-to-text tool.
//!
//! - `signal`: downmixing interleaved frames to mono and resampling them to
//!   the target rate by linear interpolation, on 16-bit PCM samples.
//! - `phrase`: normalizing transcripts and finding a phrase in them.
//! - `detector`: the state machine that polls short chunks until the wake
//!   phrase is heard or a timeout passes, then records the command.
//! - `report`: the text a caller receives for each outcome.
pub mod detector;
pub mod phrase;
pub mod report;
pub mod signal;
