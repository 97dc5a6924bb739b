//! The wake-phrase detector as a state machine.
//!
//! The detector decides; its driver acts. Each call of [`Detector::step`]
//! takes the outcome of the previous action (the clock, a capture, a
//! transcription) and returns the next action: read the clock, capture audio
//! for some seconds, transcribe what was captured, reply with a text, or
//! abort with an error.
use crate::phrase::{cleaned, heard_phrase, normalize_transcript, occurs_in};
use vstd::prelude::*;

verus! {

/// Length, in seconds, of each chunk captured while listening for the phrase.
pub const CHUNK_SECS: u64 = 2;

/// Seconds recorded after the trigger when the caller gives no duration.
pub const DEFAULT_RECORD_SECS: u64 = 5;

/// Seconds of listening before giving up when the caller gives no timeout.
pub const DEFAULT_TIMEOUT_SECS: u64 = 60;

/// Nanoseconds in a second.
pub const NANOS_PER_SEC: u128 = 1_000_000_000;

/// Why a request failed.
#[derive(Debug, Clone, PartialEq, Eq)]
pub enum SttError {
    /// The audio device could not be opened or read.
    Recording { message: String },
    /// The speech model could not be loaded.
    ModelLoad { message: String },
    /// The speech model failed on a buffer.
    Transcription { message: String },
    /// A direct recording captured no samples.
    NoAudio,
    /// The recording that follows the trigger captured no samples.
    NoAudioAfterTrigger,
    /// The trigger phrase was not heard before the timeout.
    TimedOut,
}

/// Where the detector stands.
#[derive(Debug, Clone, Copy, PartialEq, Eq, Structural)]
pub enum Phase {
    /// At a chunk boundary: the clock is read next.
    Listening,
    /// A chunk is being captured.
    ChunkCapture,
    /// A chunk is being transcribed.
    ChunkTranscribe,
    /// The command is being captured (after the trigger, or directly).
    CommandCapture,
    /// The command is being transcribed.
    CommandTranscribe,
    /// A reply or an error has been given.
    Finished,
}

/// The outcome of the previous action, handed to the detector.
#[derive(Debug, Clone, PartialEq, Eq)]
pub enum Event {
    /// Time since detection started.
    Clock { elapsed_nanos: u128 },
    /// A capture ended with this many normalized samples.
    Captured { samples: usize },
    /// A transcription returned this text.
    Transcribed { text: String },
    /// A capture or a transcription failed.
    Failed { error: SttError },
}

/// What the driver does next.
#[derive(Debug, Clone, PartialEq, Eq)]
pub enum Action {
    /// Read the time elapsed since detection started.
    ReadClock,
    /// Capture and normalize this many seconds of audio.
    Capture { secs: u64 },
    /// Transcribe the audio just captured.
    Transcribe,
    /// Done: return this text to the caller.
    Reply { text: String },
    /// Done: report this error to the caller.
    Abort { error: SttError },
}

/// The state of one detection (or one direct recording).
#[derive(Debug, Clone)]
pub struct Detector {
    pub phase: Phase,
    /// Seconds to record once the command capture starts.
    pub record_secs: u64,
    /// Seconds of listening allowed before timing out.
    pub timeout_secs: u64,
    /// Whether the command capture follows a heard trigger phrase.
    pub after_trigger: bool,
    /// The trigger phrase, in normalized form.
    pub phrase: String,
}

/// The events that a detector in `phase` accepts.
pub open spec fn accepts(phase: Phase, event: Event) -> bool {
    match phase {
        Phase::Listening => event is Clock,
        Phase::ChunkCapture | Phase::CommandCapture => event is Captured || event is Failed,
        Phase::ChunkTranscribe | Phase::CommandTranscribe => event is Transcribed || event is Failed,
        Phase::Finished => false,
    }
}

/// The action whose outcome a detector that is not finished waits for.
pub open spec fn awaited(d: Detector) -> Action {
    match d.phase {
        Phase::Listening => Action::ReadClock,
        Phase::ChunkCapture => Action::Capture { secs: CHUNK_SECS },
        Phase::CommandCapture => Action::Capture { secs: d.record_secs },
        _ => Action::Transcribe,
    }
}

/// Whether `elapsed_nanos` is past a timeout of `timeout_secs` seconds.
pub open spec fn is_past(elapsed_nanos: u128, timeout_secs: u64) -> bool {
    elapsed_nanos > timeout_secs * NANOS_PER_SEC
}

/// The phase that follows and the action to take, for an accepted event.
pub open spec fn transition(d: Detector, event: Event) -> (Phase, Action) {
    match event {
        Event::Clock { elapsed_nanos } => if is_past(elapsed_nanos, d.timeout_secs) {
            (Phase::Finished, Action::Abort { error: SttError::TimedOut })
        } else {
            (Phase::ChunkCapture, Action::Capture { secs: CHUNK_SECS })
        },
        Event::Captured { samples } => if d.phase == Phase::ChunkCapture {
            if samples == 0 {
                (Phase::Listening, Action::ReadClock)
            } else {
                (Phase::ChunkTranscribe, Action::Transcribe)
            }
        } else {
            if samples == 0 {
                (
                    Phase::Finished,
                    Action::Abort {
                        error: if d.after_trigger {
                            SttError::NoAudioAfterTrigger
                        } else {
                            SttError::NoAudio
                        },
                    },
                )
            } else {
                (Phase::CommandTranscribe, Action::Transcribe)
            }
        },
        Event::Transcribed { text } => if d.phase == Phase::ChunkTranscribe {
            if occurs_in(d.phrase@, cleaned(text@)) {
                (Phase::CommandCapture, Action::Capture { secs: d.record_secs })
            } else {
                (Phase::Listening, Action::ReadClock)
            }
        } else {
            (Phase::Finished, Action::Reply { text })
        },
        Event::Failed { error } => (Phase::Finished, Action::Abort { error }),
    }
}

impl Detector {
    /// A detector that listens for `phrase` for up to `timeout_secs`
    /// seconds, then records `record_secs` seconds. The phrase is kept in
    /// normalized form, as transcripts are matched in that form.
    pub fn new(record_secs: u64, timeout_secs: u64, phrase: &str) -> (r: Detector)
        ensures
            r.phase == Phase::Listening,
            r.record_secs == record_secs,
            r.timeout_secs == timeout_secs,
            r.after_trigger,
            r.phrase@ == cleaned(phrase@),
    {
        let phrase = normalize_transcript(phrase);
        Detector { phase: Phase::Listening, record_secs, timeout_secs, after_trigger: true, phrase }
    }

    /// A detector that skips listening and records `record_secs` seconds at once.
    pub fn command_only(record_secs: u64) -> (r: Detector)
        ensures
            r.phase == Phase::CommandCapture,
            r.record_secs == record_secs,
            r.timeout_secs == 0,
            !r.after_trigger,
            r.phrase@.len() == 0,
    {
        Detector {
            phase: Phase::CommandCapture,
            record_secs,
            timeout_secs: 0,
            after_trigger: false,
            phrase: String::new(),
        }
    }

    /// The action whose outcome the detector waits for; for a fresh
    /// detector, the first action to take.
    pub fn pending_action(&self) -> (r: Action)
        requires
            self.phase != Phase::Finished,
        ensures
            r == awaited(*self),
    {
        match self.phase {
            Phase::Listening => Action::ReadClock,
            Phase::ChunkCapture => Action::Capture { secs: CHUNK_SECS },
            Phase::CommandCapture => Action::Capture { secs: self.record_secs },
            _ => Action::Transcribe,
        }
    }

    /// Whether the detector is finished.
    pub fn is_finished(&self) -> (r: bool)
        ensures
            r == (self.phase == Phase::Finished),
    {
        self.phase == Phase::Finished
    }

    /// Whether the detector accepts `event` in its current phase.
    pub fn expects(&self, event: &Event) -> (r: bool)
        ensures
            r == accepts(self.phase, *event),
    {
        match self.phase {
            Phase::Listening => matches!(event, Event::Clock { .. }),
            Phase::ChunkCapture | Phase::CommandCapture => matches!(
                event,
                Event::Captured { .. } | Event::Failed { .. }
            ),
            Phase::ChunkTranscribe | Phase::CommandTranscribe => matches!(
                event,
                Event::Transcribed { .. } | Event::Failed { .. }
            ),
            Phase::Finished => false,
        }
    }

    /// Takes the outcome of the previous action and returns the next action.
    pub fn step(&mut self, event: Event) -> (r: Action)
        requires
            accepts(old(self).phase, event),
        ensures
            (final(self).phase, r) == transition(*old(self), event),
            final(self).record_secs == old(self).record_secs,
            final(self).timeout_secs == old(self).timeout_secs,
            final(self).after_trigger == old(self).after_trigger,
            final(self).phrase == old(self).phrase,
    {
        match event {
            Event::Clock { elapsed_nanos } => {
                if elapsed_nanos > self.timeout_secs as u128 * NANOS_PER_SEC {
                    self.phase = Phase::Finished;
                    Action::Abort { error: SttError::TimedOut }
                } else {
                    self.phase = Phase::ChunkCapture;
                    Action::Capture { secs: CHUNK_SECS }
                }
            },
            Event::Captured { samples } => {
                if self.phase == Phase::ChunkCapture {
                    if samples == 0 {
                        self.phase = Phase::Listening;
                        Action::ReadClock
                    } else {
                        self.phase = Phase::ChunkTranscribe;
                        Action::Transcribe
                    }
                } else if samples == 0 {
                    self.phase = Phase::Finished;
                    let error = if self.after_trigger {
                        SttError::NoAudioAfterTrigger
                    } else {
                        SttError::NoAudio
                    };
                    Action::Abort { error }
                } else {
                    self.phase = Phase::CommandTranscribe;
                    Action::Transcribe
                }
            },
            Event::Transcribed { text } => {
                if self.phase == Phase::ChunkTranscribe {
                    if heard_phrase(text.as_str(), self.phrase.as_str()) {
                        self.phase = Phase::CommandCapture;
                        Action::Capture { secs: self.record_secs }
                    } else {
                        self.phase = Phase::Listening;
                        Action::ReadClock
                    }
                } else {
                    self.phase = Phase::Finished;
                    Action::Reply { text }
                }
            },
            Event::Failed { error } => {
                self.phase = Phase::Finished;
                Action::Abort { error }
            },
        }
    }
}

/// The detector times out only at a chunk boundary, and only once the
/// elapsed time is past the timeout.
pub proof fn lemma_times_out_only_when_late(d: Detector, event: Event)
    requires
        accepts(d.phase, event),
        transition(d, event).1 == (Action::Abort { error: SttError::TimedOut }),
        !(event is Failed),
    ensures
        d.phase == Phase::Listening,
        event is Clock,
        is_past(event->elapsed_nanos, d.timeout_secs),
{
}

/// At a chunk boundary the detector times out exactly when the elapsed time
/// is past the timeout; otherwise it starts exactly one chunk of
/// `CHUNK_SECS` seconds, so a timeout comes at most one chunk late.
pub proof fn lemma_chunk_boundary(d: Detector, elapsed_nanos: u128)
    requires
        d.phase == Phase::Listening,
    ensures
        is_past(elapsed_nanos, d.timeout_secs) ==> transition(
            d,
            Event::Clock { elapsed_nanos },
        ) == (Phase::Finished, Action::Abort { error: SttError::TimedOut }),
        !is_past(elapsed_nanos, d.timeout_secs) ==> transition(
            d,
            Event::Clock { elapsed_nanos },
        ) == (Phase::ChunkCapture, Action::Capture { secs: CHUNK_SECS }),
{
}

/// Once the trigger is heard, the detector captures the command once,
/// transcribes it once and replies with that text: no further chunk is
/// captured.
pub proof fn lemma_after_trigger(d: Detector, chunk_text: String, samples: usize, text: String)
    requires
        d.phase == Phase::ChunkTranscribe,
        occurs_in(d.phrase@, cleaned(chunk_text@)),
        samples > 0,
    ensures
        ({
            let (p1, a1) = transition(d, Event::Transcribed { text: chunk_text });
            let d1 = Detector { phase: p1, ..d };
            let (p2, a2) = transition(d1, Event::Captured { samples });
            let d2 = Detector { phase: p2, ..d1 };
            let (p3, a3) = transition(d2, Event::Transcribed { text });
            &&& a1 == Action::Capture { secs: d.record_secs }
            &&& a2 == Action::Transcribe
            &&& p3 == Phase::Finished
            &&& a3 == Action::Reply { text }
        }),
{
}

} // verus!
