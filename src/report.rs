//! The text a caller receives: the transcript, or a message that names the
//! failure.
use crate::detector::SttError;
use vstd::prelude::*;
use vstd::string::*;

verus! {

/// The message that describes an error.
pub open spec fn description(e: SttError) -> Seq<char> {
    match e {
        SttError::Recording { message } => "recording failed: "@ + message@,
        SttError::ModelLoad { message } => "failed to load model: "@ + message@,
        SttError::Transcription { message } => "transcription failed: "@ + message@,
        SttError::NoAudio => "no audio samples captured"@,
        SttError::NoAudioAfterTrigger => "no audio samples captured after trigger"@,
        SttError::TimedOut => "Timed out waiting for the trigger phrase."@,
    }
}

/// The text returned for the outcome of a request: the transcript itself,
/// or the error's description after an `Error: ` prefix.
pub open spec fn reply_of(outcome: Result<String, SttError>) -> Seq<char> {
    match outcome {
        Ok(text) => text@,
        Err(e) => "Error: "@ + description(e),
    }
}

impl SttError {
    /// Describes the error in words.
    pub fn describe(&self) -> (r: String)
        ensures
            r@ == description(*self),
    {
        match self {
            SttError::Recording { message } => String::from_str("recording failed: ").concat(
                message.as_str(),
            ),
            SttError::ModelLoad { message } => String::from_str("failed to load model: ").concat(
                message.as_str(),
            ),
            SttError::Transcription { message } => String::from_str(
                "transcription failed: ",
            ).concat(message.as_str()),
            SttError::NoAudio => String::from_str("no audio samples captured"),
            SttError::NoAudioAfterTrigger => String::from_str(
                "no audio samples captured after trigger",
            ),
            SttError::TimedOut => String::from_str("Timed out waiting for the trigger phrase."),
        }
    }
}

/// The text returned to the caller for the outcome of a request.
pub fn reply_text(outcome: Result<String, SttError>) -> (r: String)
    ensures
        r@ == reply_of(outcome),
{
    match outcome {
        Ok(text) => text,
        Err(e) => {
            let d = e.describe();
            String::from_str("Error: ").concat(d.as_str())
        },
    }
}

} // verus!
