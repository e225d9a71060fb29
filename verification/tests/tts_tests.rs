use voicebot::elevenlabs::{audio_response_step, elevenlabs_response_step, ElevenLabsProvider};
use voicebot::frame::AudioFrame;
use voicebot::tts::{ends_synthesis, normalize_tts_input, PcmFramer, StubTtsProvider, TtsError};

#[test]
fn test_provider_creation() {
    let provider = ElevenLabsProvider::new("key".into(), "voice123".into());
    assert_eq!(provider.voice_id(), "voice123");
    assert_eq!(provider.model_id(), "eleven_multilingual_v2");
}

#[test]
fn test_provider_cancel() {
    let provider = ElevenLabsProvider::new("key".into(), "voice123".into());
    assert!(!provider.is_cancelled());
    provider.cancel();
    assert!(provider.is_cancelled());
    provider.reset_cancel();
    assert!(!provider.is_cancelled());
}

#[test]
fn provider_with_model_and_url() {
    let provider = ElevenLabsProvider::new("key".into(), "v1".into()).with_model("m2".into());
    assert_eq!(provider.model_id(), "m2");
    assert_eq!(provider.api_key(), "key");
    assert_eq!(
        provider.stream_url(),
        "wss://api.elevenlabs.io/v1/text-to-speech/v1/stream-input?model_id=m2"
    );
}

#[test]
fn test_normalize_tts_input_strips_markdown_and_emoji() {
    let normalized = normalize_tts_input("**Morning:** ### 🏃 Count to 5!\nKeep going.")
        .expect("text should remain speakable");
    assert_eq!(normalized, "Morning: Count to 5! Keep going.");
}

#[test]
fn test_normalize_tts_input_skips_counter_only_fragments() {
    assert_eq!(normalize_tts_input("### 🏃 2."), None);
    assert_eq!(normalize_tts_input("3)"), None);
}

#[test]
fn normalize_collapses_spaces_and_attaches_punctuation() {
    assert_eq!(normalize_tts_input("Hello ,  world  !").as_deref(), Some("Hello, world!"));
    assert_eq!(normalize_tts_input("a\r\nb\tc").as_deref(), Some("a b c"));
    assert_eq!(normalize_tts_input("   "), None);
    assert_eq!(normalize_tts_input(""), None);
    assert_eq!(normalize_tts_input("Größe 5€").as_deref(), Some("Größe 5"));
}

#[test]
fn response_step_decodes_audio() {
    // "AQACAA==" is the bytes 1, 0, 2, 0: the samples 1 and 2.
    let step = match elevenlabs_response_step(Some("AQACAA=="), Some(false), 4) {
        Ok(s) => s,
        Err(_) => panic!("valid base64"),
    };
    let chunk = step.chunk.expect("chunk");
    assert_eq!(chunk.frame.data, vec![1, 2]);
    assert_eq!(chunk.sequence, 4);
    assert_eq!(step.next_sequence, 5);
    assert!(!step.complete);
}

#[test]
fn response_step_final_without_audio() {
    let step = match elevenlabs_response_step(None, Some(true), 9) {
        Ok(s) => s,
        Err(_) => panic!("no audio is fine"),
    };
    assert!(step.chunk.is_none());
    assert_eq!(step.next_sequence, 9);
    assert!(step.complete);
}

#[test]
fn response_step_rejects_bad_base64() {
    match elevenlabs_response_step(Some("***"), None, 0) {
        Err(TtsError::SynthesisError(m)) => assert!(m.starts_with("base64 decode error: ")),
        _ => panic!("expected a synthesis error"),
    }
}

#[test]
fn empty_audio_yields_no_chunk() {
    let step = audio_response_step(Some(&[]), None, 3);
    assert!(step.chunk.is_none());
    assert_eq!(step.next_sequence, 3);
    assert!(!step.complete);
}

#[test]
fn pcm_framer_cuts_640_byte_frames() {
    let mut framer = PcmFramer::new();
    let frames = framer.push(&vec![1u8; 1000]);
    assert_eq!(frames.len(), 1);
    assert_eq!(frames[0].data.len(), 320);
    let frames = framer.push(&vec![0u8; 300]);
    assert_eq!(frames.len(), 1);
    let last = framer.finish().expect("remainder");
    assert_eq!(last.data.len(), 10);
    assert!(framer.finish().is_none());
}

#[test]
fn stub_replies_with_20ms_silence() {
    let (frame, sequence): (AudioFrame, u32) = StubTtsProvider.reply();
    assert_eq!(sequence, 0);
    assert_eq!(frame.data.len(), 320);
    assert!(frame.data.iter().all(|s| *s == 0));
}

#[test]
fn fatal_errors_end_synthesis() {
    assert!(ends_synthesis(&TtsError::Cancelled));
    assert!(ends_synthesis(&TtsError::ChannelClosed));
    assert!(!ends_synthesis(&TtsError::Timeout));
    assert!(!ends_synthesis(&TtsError::SynthesisError("x".into())));
}

#[test]
fn normalizing_twice_changes_nothing() {
    for text in [
        "**Morning:** ### 🏃 Count to 5!\nKeep going.",
        "Hello ,  world !\r\n\tBye )",
        "  a _b_ [c] {d} ~e~ | f > g  ",
        "1. 2) - / (3)",
    ] {
        match normalize_tts_input(text) {
            Some(t) => {
                assert_eq!(normalize_tts_input(&t), Some(t.clone()));
                assert_eq!(t.trim(), t);
                assert!(!t.contains("  "));
                assert!(!t.contains(['\n', '\r', '\t', '*', '#', '_']));
                for p in [" .", " ,", " !", " ?", " ;", " :", " )", " /"] {
                    assert!(!t.contains(p));
                }
            }
            None => assert_eq!(text, "1. 2) - / (3)"),
        }
    }
}

#[test]
fn response_step_without_audio_at_last_sequence() {
    let step = match elevenlabs_response_step(None, Some(false), u32::MAX) {
        Ok(s) => s,
        Err(_) => panic!("no audio is fine"),
    };
    assert!(step.chunk.is_none());
    assert_eq!(step.next_sequence, u32::MAX);
}

#[test]
fn normalizing_ascii_keeps_letters_and_digits() {
    assert_eq!(normalize_tts_input("a* b ."), Some("a b.".to_string()));
    assert_eq!(normalize_tts_input("Call 555-0100 now!"), Some("Call 555-0100 now!".to_string()));
}
