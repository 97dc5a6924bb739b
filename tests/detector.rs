use stt_mcp::detector::{Action, Detector, Event, Phase, SttError, CHUNK_SECS, NANOS_PER_SEC};

const WAKE: &str = "Hey, Audio Helper";

fn transcribed(text: &str) -> Event {
    Event::Transcribed { text: text.to_string() }
}

#[test]
fn times_out_within_one_chunk_of_the_timeout() {
    let mut d = Detector::new(5, 3, WAKE);
    assert_eq!(d.pending_action(), Action::ReadClock);
    let mut now: u128 = 0;
    let mut chunks = 0;
    loop {
        let a = d.step(Event::Clock { elapsed_nanos: now });
        match a {
            Action::Capture { secs } => {
                assert_eq!(secs, CHUNK_SECS);
                chunks += 1;
                now += secs as u128 * NANOS_PER_SEC;
                assert_eq!(d.step(Event::Captured { samples: 32000 }), Action::Transcribe);
                assert_eq!(d.step(transcribed("nothing here")), Action::ReadClock);
            }
            Action::Abort { error } => {
                assert_eq!(error, SttError::TimedOut);
                break;
            }
            other => panic!("unexpected action {:?}", other),
        }
    }
    assert!(now >= 3 * NANOS_PER_SEC);
    assert!(now <= 5 * NANOS_PER_SEC);
    assert_eq!(chunks, 2);
    assert!(d.is_finished());
}

#[test]
fn timeout_is_strictly_after_the_limit() {
    let mut d = Detector::new(5, 3, WAKE);
    assert_eq!(
        d.step(Event::Clock { elapsed_nanos: 3 * NANOS_PER_SEC }),
        Action::Capture { secs: CHUNK_SECS }
    );
    let mut e = Detector::new(5, 3, WAKE);
    assert_eq!(
        e.step(Event::Clock { elapsed_nanos: 3 * NANOS_PER_SEC + 1 }),
        Action::Abort { error: SttError::TimedOut }
    );
}

#[test]
fn trigger_on_third_chunk_records_once_more() {
    let script = ["", "some noise", "well hey audio helper please", "never", "never"];
    let mut d = Detector::new(5, 60, WAKE);
    let mut next_chunk = 0;
    let mut command_captures = 0;
    let mut action = d.pending_action();
    let mut now: u128 = 0;
    let reply = loop {
        action = match action {
            Action::ReadClock => d.step(Event::Clock { elapsed_nanos: now }),
            Action::Capture { secs } => {
                now += secs as u128 * NANOS_PER_SEC;
                if d.phase == Phase::ChunkCapture {
                    next_chunk += 1;
                } else {
                    assert_eq!(secs, 5);
                    command_captures += 1;
                }
                d.step(Event::Captured { samples: 32000 })
            }
            Action::Transcribe => {
                if d.phase == Phase::ChunkTranscribe {
                    d.step(transcribed(script[next_chunk - 1]))
                } else {
                    d.step(transcribed("open the pod bay doors"))
                }
            }
            Action::Reply { text } => break text,
            Action::Abort { error } => panic!("unexpected error {:?}", error),
        };
    };
    assert_eq!(next_chunk, 3);
    assert_eq!(command_captures, 1);
    assert_eq!(reply, "open the pod bay doors");
}

#[test]
fn empty_chunk_is_not_transcribed() {
    let mut d = Detector::new(5, 60, WAKE);
    assert_eq!(d.step(Event::Clock { elapsed_nanos: 0 }), Action::Capture { secs: CHUNK_SECS });
    assert_eq!(d.step(Event::Captured { samples: 0 }), Action::ReadClock);
    assert_eq!(d.phase, Phase::Listening);
}

#[test]
fn silence_gives_empty_text_not_an_error() {
    let mut d = Detector::command_only(5);
    assert_eq!(d.pending_action(), Action::Capture { secs: 5 });
    assert_eq!(d.step(Event::Captured { samples: 80000 }), Action::Transcribe);
    assert_eq!(d.step(transcribed("")), Action::Reply { text: String::new() });
    assert!(d.is_finished());
}

#[test]
fn empty_direct_recording_is_no_audio() {
    let mut d = Detector::command_only(5);
    assert_eq!(
        d.step(Event::Captured { samples: 0 }),
        Action::Abort { error: SttError::NoAudio }
    );
}

#[test]
fn empty_capture_after_trigger_is_reported() {
    let mut d = Detector::new(7, 60, WAKE);
    d.step(Event::Clock { elapsed_nanos: 0 });
    d.step(Event::Captured { samples: 10 });
    assert_eq!(d.step(transcribed("Hey Audio Helper")), Action::Capture { secs: 7 });
    assert_eq!(
        d.step(Event::Captured { samples: 0 }),
        Action::Abort { error: SttError::NoAudioAfterTrigger }
    );
}

#[test]
fn failures_abort_detection() {
    let mut d = Detector::new(5, 60, WAKE);
    d.step(Event::Clock { elapsed_nanos: 0 });
    let err = SttError::Recording { message: "device gone".to_string() };
    assert_eq!(d.step(Event::Failed { error: err.clone() }), Action::Abort { error: err });

    let mut e = Detector::new(5, 60, WAKE);
    e.step(Event::Clock { elapsed_nanos: 0 });
    e.step(Event::Captured { samples: 10 });
    let err = SttError::Transcription { message: "bad buffer".to_string() };
    assert_eq!(e.step(Event::Failed { error: err.clone() }), Action::Abort { error: err });
    assert!(e.is_finished());
}

#[test]
fn expects_matches_phase() {
    let d = Detector::new(5, 60, WAKE);
    assert!(d.expects(&Event::Clock { elapsed_nanos: 0 }));
    assert!(!d.expects(&Event::Captured { samples: 1 }));
    let c = Detector::command_only(5);
    assert!(c.expects(&Event::Captured { samples: 1 }));
    assert!(c.expects(&Event::Failed { error: SttError::NoAudio }));
    assert!(!c.expects(&transcribed("x")));
}

#[test]
fn phrase_is_kept_normalized() {
    let d = Detector::new(5, 60, "Hey, Audio Helper!");
    assert_eq!(d.phrase, "hey audio helper");
}
