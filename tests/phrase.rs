use stt_mcp::phrase::{
    contains_phrase, heard_phrase, matches_folded, normalize_transcript, strip_symbols,
};

const WAKE: &str = "hey audio helper";

fn heard_trigger(text: &str) -> bool {
    heard_phrase(text, WAKE)
}

#[test]
fn trigger_heard_through_punctuation_and_case() {
    assert!(heard_trigger("Hey, Audio Helper!"));
    assert!(heard_trigger("hey audio helper"));
    assert!(heard_trigger("HEY AUDIO HELPER"));
    assert!(heard_trigger("well hey audio helper please"));
}

#[test]
fn trigger_not_heard_on_near_miss() {
    assert!(!heard_trigger("hey audi helper"));
    assert!(!heard_trigger(""));
    assert!(!heard_trigger("audio helper hey"));
}

#[test]
fn trigger_match_is_exact_substring() {
    // Irregular inner spacing survives normalization, so the literal phrase is not found.
    assert!(!heard_trigger("HEY AUDIO   HELPER"));
}

#[test]
fn normalize_lowercases_and_strips() {
    assert_eq!(normalize_transcript("Hey, Audio Helper!"), "hey audio helper");
    assert_eq!(normalize_transcript("ABC"), "abc");
    assert_eq!(normalize_transcript("Ünïcödé 42?"), "ünïcödé 42");
}

#[test]
fn strip_keeps_alphanumerics_and_whitespace() {
    assert_eq!(strip_symbols("a,b"), "ab");
    assert_eq!(strip_symbols("a b\t!"), "a b\t");
    assert_eq!(strip_symbols("...!?"), "");
}

#[test]
fn contains_phrase_cases() {
    assert!(contains_phrase("abcabd", "abd"));
    assert!(!contains_phrase("abcab", "abd"));
    assert!(contains_phrase("abc", ""));
    assert!(!contains_phrase("ab", "abc"));
}

#[test]
fn matches_folded_strips_before_matching() {
    assert!(matches_folded("hey, audio helper.", WAKE));
    assert!(matches_folded("hey, audio hel-per", WAKE));
    assert!(!matches_folded("hey audio-helper", WAKE));
}

#[test]
fn heard_phrase_other_phrase() {
    assert!(heard_phrase("OK, Computer!", "ok computer"));
    assert!(!heard_phrase("OK, Computer!", "hey audio helper"));
}
