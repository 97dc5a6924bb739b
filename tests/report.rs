use stt_mcp::detector::{Action, Detector, Event, SttError, CHUNK_SECS};
use stt_mcp::signal::{normalize, TARGET_RATE};
use stt_mcp::report::reply_text;

#[test]
fn describe_each_error() {
    let rec = SttError::Recording { message: "no device".to_string() };
    assert_eq!(rec.describe(), "recording failed: no device");
    let load = SttError::ModelLoad { message: "missing file".to_string() };
    assert_eq!(load.describe(), "failed to load model: missing file");
    let tr = SttError::Transcription { message: "bad".to_string() };
    assert_eq!(tr.describe(), "transcription failed: bad");
    assert_eq!(SttError::NoAudio.describe(), "no audio samples captured");
    assert_eq!(
        SttError::NoAudioAfterTrigger.describe(),
        "no audio samples captured after trigger"
    );
    assert_eq!(SttError::TimedOut.describe(), "Timed out waiting for the trigger phrase.");
}

#[test]
fn reply_passes_text_through() {
    assert_eq!(reply_text(Ok("hello there".to_string())), "hello there");
    assert_eq!(reply_text(Ok(String::new())), "");
}

#[test]
fn reply_prefixes_errors() {
    assert_eq!(reply_text(Err(SttError::NoAudio)), "Error: no audio samples captured");
    assert_eq!(
        reply_text(Err(SttError::TimedOut)),
        "Error: Timed out waiting for the trigger phrase."
    );
}

#[test]
fn silence_pipeline_gives_empty_reply() {
    let captured: Vec<i16> = vec![0; 80000];
    let samples = normalize(&captured, TARGET_RATE, 1);
    assert_eq!(samples, captured);
    let mut d = Detector::command_only(5);
    assert_eq!(d.pending_action(), Action::Capture { secs: 5 });
    assert_eq!(d.step(Event::Captured { samples: samples.len() }), Action::Transcribe);
    let outcome = match d.step(Event::Transcribed { text: String::new() }) {
        Action::Reply { text } => Ok(text),
        Action::Abort { error } => Err(error),
        other => panic!("unexpected action {:?}", other),
    };
    assert_eq!(reply_text(outcome), "");
}

#[test]
fn pending_action_follows_phase() {
    let mut d = Detector::new(9, 60, "wake up");
    assert_eq!(d.pending_action(), Action::ReadClock);
    d.step(Event::Clock { elapsed_nanos: 0 });
    assert_eq!(d.pending_action(), Action::Capture { secs: CHUNK_SECS });
    d.step(Event::Captured { samples: 3 });
    assert_eq!(d.pending_action(), Action::Transcribe);
    d.step(Event::Transcribed { text: "Wake up!".to_string() });
    assert_eq!(d.pending_action(), Action::Capture { secs: 9 });
}
