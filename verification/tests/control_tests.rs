use voicebot::ari::{
    ari_base_url, ari_events_url, check_rest_status, dispatch_ari_event, egress_step, external_media_host, AriAction,
    AriChannel, AriError, AriEvent, EgressStep, RtpStream,
};
use voicebot::frame::{AudioFrame, PipelineEvent};
use voicebot::mockprovider::{check_embedded_wav, port_argument, split_pcm_frames};
use voicebot::rtp::parse_rtp_payload;
use voicebot::scheduler::{
    analysis_request_text, call_rate_from_config, campaign_gate, dial_endpoint, dial_rate_key, is_within_schedule,
    originate_app_args, rate_limit_exceeded, retry_decision, transcript_text, AriConfig, DialGate, LlmConfig,
    RetryDecision, TranscriptTurn,
};
use voicebot::storage::{recording_key, UsageSummary};
use voicebot::text::{join_strs, starts_with};
use voicebot::vad::{frames_to_pcm, speech_state_signal, VadEvent, VadState, VadTiming};
use voicebot::dialer::{
    outbound_call_step, CampaignFacts, DialAction, DialEvent, DialFailure, DialStage, JobResult, OutboundCallJob,
};
use voicebot::platform::{PlatformAction, PlatformEvent, PlatformSession};
use voicebot::wsserver::{
    accept_session, active_sessions_key, bridge_step, encode_pcm_to_wav, outbound_for, samples_per_20ms,
    session_input_rate, session_start_step, should_upload_recording, BridgeStep, ClientEvent, ClientMessage,
    InboundAudioDecoder, Outbound, ServerMessage, StartStep, TransportError,
};

fn event(kind: &str, name: &str, digit: Option<&str>) -> AriEvent {
    AriEvent {
        kind: kind.into(),
        channel: Some(AriChannel { id: "ch1".into(), name: name.into(), caller: None, language: None }),
        digit: digit.map(|d| d.to_string()),
        duration_ms: None,
        cause: None,
        cause_txt: None,
        application: None,
    }
}

#[test]
fn ari_events_dispatch() {
    assert!(matches!(dispatch_ari_event(event("StasisStart", "PJSIP/100-1", None)), AriAction::StartCall(_)));
    assert!(matches!(dispatch_ari_event(event("StasisStart", "UnicastRTP/1.2.3.4", None)), AriAction::Ignore));
    match dispatch_ari_event(event("ChannelDestroyed", "PJSIP/1", None)) {
        AriAction::CancelCall(id) => assert_eq!(id, "ch1"),
        _ => panic!("expected cancel"),
    }
    assert!(matches!(dispatch_ari_event(event("ChannelDtmfReceived", "PJSIP/1", Some("#"))), AriAction::CancelCall(_)));
    assert!(matches!(dispatch_ari_event(event("ChannelDtmfReceived", "PJSIP/1", Some("5"))), AriAction::Ignore));
    assert!(matches!(dispatch_ari_event(event("Other", "PJSIP/1", None)), AriAction::Ignore));
}

#[test]
fn ari_urls_and_status() {
    assert_eq!(ari_events_url("h", 8088, "u", "p", "app"), "ws://h:8088/ari/events?api_key=u:p&app=app");
    assert_eq!(ari_base_url("h", 80), "http://h:80/ari");
    assert_eq!(external_media_host("10.0.0.1", 4000), "10.0.0.1:4000");
    assert!(check_rest_status(200, "u".into()).is_ok());
    match check_rest_status(500, "u".into()) {
        Err(AriError::Rest { status, url }) => {
            assert_eq!(status, 500);
            assert_eq!(url, "u");
        }
        _ => panic!("expected a REST error"),
    }
}

#[test]
fn rtp_stream_numbers_packets_and_wraps() {
    let mut stream = RtpStream::from_seed(&[0xff, 0xff, 0xff, 0xff, 0xff, 0x00, 0, 0, 0, 7, 1, 2, 3, 4, 5, 6]);
    let packets = stream.packets_for(&[0i16; 700]);
    assert_eq!(packets.len(), 3);
    assert_eq!(&packets[0][2..4], &[0xff, 0xff]);
    assert_eq!(&packets[1][2..4], &[0x00, 0x00]);
    assert_eq!(&packets[0][4..8], &[0xff, 0xff, 0xff, 0x00]);
    assert_eq!(&packets[1][4..8], &[0xff, 0xff, 0xff, 0xa0]);
    assert_eq!(&packets[0][8..12], &[0, 0, 0, 7]);
    assert_eq!(parse_rtp_payload(&packets[2]).expect("payload").len(), 30);
    let frame = stream.on_packet(&packets[0]).expect("frame");
    assert_eq!(frame.timestamp_ms, 0);
    assert_eq!(frame.data.len(), 320);
    let frame = stream.on_packet(&packets[1]).expect("frame");
    assert_eq!(frame.timestamp_ms, 20);
    assert!(stream.on_packet(&[1, 2, 3]).is_none());
}

#[test]
fn egress_steps() {
    assert!(matches!(egress_step(&PipelineEvent::TtsAudioChunk { frame: AudioFrame::new(vec![], 0), sequence: 0 }), EgressStep::Play));
    assert!(matches!(egress_step(&PipelineEvent::SessionEnd), EgressStep::Stop));
    assert!(matches!(egress_step(&PipelineEvent::TtsComplete), EgressStep::Skip));
}

#[test]
fn test_inbound_audio_decoder_passthrough() {
    let mut decoder = match InboundAudioDecoder::new(16_000) {
        Ok(d) => d,
        Err(_) => panic!("16 kHz is accepted"),
    };
    let samples: Vec<i16> = vec![100, -100, 200];
    let mut input = Vec::new();
    while input.len() < 320 {
        input.extend_from_slice(&samples);
    }
    input.truncate(320);
    let bytes: Vec<u8> = input.iter().flat_map(|s| s.to_le_bytes()).collect();
    let frames = match decoder.decode(&bytes) {
        Ok(f) => f,
        Err(_) => panic!("even length"),
    };
    assert_eq!(frames.len(), 1);
    assert_eq!(frames[0].sample_rate, 16_000);
    assert_eq!(frames[0].num_samples(), 320);
}

#[test]
fn test_inbound_audio_decoder_rejects_odd_bytes() {
    let mut decoder = match InboundAudioDecoder::new(16_000) {
        Ok(d) => d,
        Err(_) => panic!("16 kHz is accepted"),
    };
    assert!(decoder.decode(&[0u8, 1, 2]).is_err());
}

#[test]
fn inbound_decoder_stamps_frames_20ms_apart() {
    assert!(matches!(InboundAudioDecoder::new(0), Err(TransportError::InvalidSampleRate(0))));
    let mut decoder = match InboundAudioDecoder::new(48_000) {
        Ok(d) => d,
        Err(_) => panic!("48 kHz is accepted"),
    };
    assert!(decoder.needs_resampling());
    let frames = decoder.push_normalized(&vec![1i16; 700]);
    assert_eq!(frames.len(), 2);
    assert_eq!(frames[0].timestamp_ms, 0);
    assert_eq!(frames[1].timestamp_ms, 20);
    let frames = decoder.push_normalized(&vec![1i16; 260]);
    assert_eq!(frames.len(), 1);
    assert_eq!(frames[0].timestamp_ms, 40);
}

#[test]
fn websocket_protocol_helpers() {
    assert_eq!(samples_per_20ms(48_000), 960);
    assert_eq!(samples_per_20ms(44_100), 882);
    assert!(matches!(session_input_rate(None), Ok(16_000)));
    assert!(matches!(session_input_rate(Some(8_000)), Ok(8_000)));
    assert!(matches!(session_input_rate(Some(0)), Err(TransportError::InvalidSampleRate(0))));
    match outbound_for(PipelineEvent::ComponentError { component: "asr".into(), error: "timeout".into(), recoverable: true }) {
        Outbound::Text(ServerMessage::Error { code, recoverable }) => {
            assert_eq!(code, "asr_timeout");
            assert!(recoverable);
        }
        _ => panic!("expected an error message"),
    }
    match outbound_for(PipelineEvent::TtsAudioChunk { frame: AudioFrame::new(vec![1, -1], 0), sequence: 0 }) {
        Outbound::Binary(b) => assert_eq!(b, vec![1, 0, 0xff, 0xff]),
        _ => panic!("expected binary audio"),
    }
    assert!(matches!(outbound_for(PipelineEvent::SpeechEnded { timestamp_ms: 1 }), Outbound::Nothing));
    assert!(accept_session(9, None));
    assert!(!accept_session(10, None));
    assert!(!accept_session(2, Some(2)));
    assert_eq!(active_sessions_key("t1"), "tenant:t1:active_sessions");
    assert!(should_upload_recording(true, true, &[1]));
    assert!(!should_upload_recording(true, true, &[]));
}

#[test]
fn wav_header_layout() {
    let wav = encode_pcm_to_wav(&[1, -1], 16_000);
    assert_eq!(wav.len(), 48);
    assert_eq!(&wav[0..4], b"RIFF");
    assert_eq!(&wav[4..8], &40u32.to_le_bytes());
    assert_eq!(&wav[8..16], b"WAVEfmt ");
    assert_eq!(&wav[24..28], &16_000u32.to_le_bytes());
    assert_eq!(&wav[28..32], &32_000u32.to_le_bytes());
    assert_eq!(&wav[36..40], b"data");
    assert_eq!(&wav[40..44], &4u32.to_le_bytes());
    assert_eq!(&wav[44..48], &[1, 0, 0xff, 0xff]);
}

#[test]
fn scheduler_decisions() {
    assert!(matches!(retry_decision(0), RetryDecision::RetryAfterMinutes(5)));
    assert!(matches!(retry_decision(1), RetryDecision::RetryAfterMinutes(15)));
    assert!(matches!(retry_decision(2), RetryDecision::RetryAfterMinutes(45)));
    assert!(matches!(retry_decision(3), RetryDecision::MarkFailed));
    assert!(is_within_schedule(Some(9), Some(17), 9));
    assert!(!is_within_schedule(Some(9), Some(17), 17));
    assert!(is_within_schedule(None, Some(17), 23));
    assert_eq!(call_rate_from_config(None), 10);
    assert_eq!(call_rate_from_config(Some(3)), 3);
    assert!(rate_limit_exceeded(11, 10));
    assert!(!rate_limit_exceeded(10, 10));
    assert!(rate_limit_exceeded(0, u64::MAX));
    assert!(matches!(campaign_gate(&"paused".to_string(), true), DialGate::Skip));
    assert!(matches!(campaign_gate(&"active".to_string(), false), DialGate::OutsideSchedule));
    assert!(matches!(campaign_gate(&"active".to_string(), true), DialGate::Proceed));
    assert_eq!(dial_endpoint("++15551234"), "PJSIP/15551234");
    assert_eq!(dial_endpoint("100"), "PJSIP/100");
    assert_eq!(dial_rate_key("c"), "campaign:c:dial_rate_1m");
    assert_eq!(originate_app_args("c", "k"), "campaign_id=c,contact_id=k");
}

#[test]
fn scheduler_settings_defaults() {
    let ari = AriConfig::from_values(None, Some("u".into()), None, None);
    assert_eq!(ari.base_url, "http://localhost:8088");
    assert_eq!(ari.username, "u");
    assert_eq!(ari.password, "admin");
    assert_eq!(ari.stasis_app, "voicebot");
    let llm = LlmConfig::from_values(None, None, None);
    assert_eq!(llm.base_url, "http://localhost:8000");
    assert_eq!(llm.api_key, "");
    assert_eq!(llm.model, "gpt-4o-mini");
}

#[test]
fn transcript_lines() {
    let turns = vec![
        TranscriptTurn { role: Some("user".into()), text: Some("hi".into()) },
        TranscriptTurn { role: None, text: Some("hello".into()) },
        TranscriptTurn { role: Some("agent".into()), text: None },
    ];
    assert_eq!(transcript_text(&turns), "user: hi\n?: hello");
    assert_eq!(transcript_text(&[]), "");
    assert_eq!(analysis_request_text("x"), "Transcript:\nx");
}

#[test]
fn storage_keys_and_rows() {
    assert_eq!(recording_key("t", "s"), "recordings/t/s.wav");
    let u = UsageSummary::from_sums((1, 2, 3, 4, 5, 6));
    assert_eq!(u.call_count, 1);
    assert_eq!(u.cost_usd_cents, 6);
}

#[test]
fn mock_provider_helpers() {
    let frames = split_pcm_frames(&vec![0u8; 1300]);
    assert_eq!(frames.len(), 3);
    assert_eq!(frames[2].len(), 20);
    assert!(split_pcm_frames(&[]).is_empty());
    assert!(check_embedded_wav(1, 16, false).is_ok());
    assert_eq!(check_embedded_wav(2, 16, false), Err("embedded TTS wav must be mono, got 2 channels".to_string()));
    assert_eq!(
        check_embedded_wav(1, 8, false),
        Err("embedded TTS wav must be 16-bit PCM, got bits_per_sample=8 sample_format=Int".to_string())
    );
    let args: Vec<String> = vec!["bin".into(), "--port".into(), "9000".into()];
    assert_eq!(port_argument(&args).map(|s| s.as_str()), Some("9000"));
    let args: Vec<String> = vec!["--port".into()];
    assert!(port_argument(&args).is_none());
}

#[test]
fn vad_state_machine() {
    let timing = VadTiming { min_speech_ms: 40, silence_ms: 40 };
    let mut s = VadState::new();
    assert!(s.on_frame(true, 0, &timing).is_none());
    assert!(matches!(s.on_frame(true, 20, &timing), Some(VadEvent::SpeechStarted { timestamp_ms: 20 })));
    assert!(s.on_frame(true, 40, &timing).is_none());
    assert!(s.on_frame(false, 60, &timing).is_none());
    assert!(matches!(s.on_frame(false, 80, &timing), Some(VadEvent::SpeechEnded { timestamp_ms: 80 })));
    assert!(s.on_stream_end().is_none());
    let mut t = VadState::new();
    t.on_frame(true, 0, &timing);
    t.on_frame(false, 20, &timing);
    assert!(t.on_frame(true, 40, &timing).is_none());
}

#[test]
fn vad_pcm_body() {
    let frames = vec![AudioFrame::new(vec![1], 0), AudioFrame::new(vec![2, 3], 20)];
    assert_eq!(frames_to_pcm(&frames), vec![1, 0, 2, 0, 3, 0]);
}

#[test]
fn text_helpers() {
    assert!(starts_with("UnicastRTP/1", "UnicastRTP/"));
    assert!(!starts_with("Unicast", "UnicastRTP/"));
    assert_eq!(join_strs(&["a", "b", "c"], ","), "a,b,c");
    assert_eq!(join_strs(&[], ","), "");
}

#[test]
fn session_start_steps() {
    let start = ClientMessage::SessionStart { language: "th".into(), asr: "a".into(), tts: "t".into(), sample_rate: Some(48_000) };
    match session_start_step(ClientEvent::Text(Ok(start))) {
        StartStep::Start { language, input_sample_rate, .. } => {
            assert_eq!(language, "th");
            assert_eq!(input_sample_rate, 48_000);
        }
        _ => panic!("expected a start"),
    }
    let default_rate = ClientMessage::SessionStart { language: "en".into(), asr: "a".into(), tts: "t".into(), sample_rate: None };
    assert!(matches!(session_start_step(ClientEvent::Text(Ok(default_rate))), StartStep::Start { input_sample_rate: 16_000, .. }));
    assert!(matches!(session_start_step(ClientEvent::Text(Ok(ClientMessage::SessionEnd))), StartStep::Wait));
    assert!(matches!(session_start_step(ClientEvent::Binary(vec![1, 2])), StartStep::Wait));
    match session_start_step(ClientEvent::Close) {
        StartStep::Fail(TransportError::Session(m)) => assert_eq!(m, "connection closed before session_start"),
        _ => panic!("expected a failure"),
    }
    match session_start_step(ClientEvent::Ended) {
        StartStep::Fail(TransportError::Session(m)) => assert_eq!(m, "stream ended before session_start"),
        _ => panic!("expected a failure"),
    }
    assert!(matches!(
        session_start_step(ClientEvent::Text(Err(TransportError::InvalidJson("x".into())))),
        StartStep::Fail(TransportError::InvalidJson(_))
    ));
}

#[test]
fn bridge_steps() {
    let mut decoder = match InboundAudioDecoder::new(16_000) {
        Ok(d) => d,
        Err(_) => panic!("16 kHz is accepted"),
    };
    match bridge_step(&mut decoder, ClientEvent::Binary(vec![0u8; 640])) {
        BridgeStep::Forward(frames) => assert_eq!(frames.len(), 1),
        _ => panic!("expected frames"),
    }
    assert!(matches!(bridge_step(&mut decoder, ClientEvent::Binary(vec![0u8; 3])), BridgeStep::Continue));
    assert!(matches!(bridge_step(&mut decoder, ClientEvent::Text(Ok(ClientMessage::SessionEnd))), BridgeStep::Stop));
    assert!(matches!(bridge_step(&mut decoder, ClientEvent::Other), BridgeStep::Continue));
    assert!(matches!(bridge_step(&mut decoder, ClientEvent::Close), BridgeStep::Stop));
}

#[test]
fn decoder_frames_continue_across_messages() {
    let samples: Vec<i16> = (0..800).map(|i| i as i16).collect();
    let bytes: Vec<u8> = samples.iter().flat_map(|s| s.to_le_bytes()).collect();
    let mut whole = InboundAudioDecoder::new(16_000).ok().expect("16 kHz");
    let mut split = InboundAudioDecoder::new(16_000).ok().expect("16 kHz");
    let all = whole.decode(&bytes).ok().expect("even");
    let mut parts = split.decode(&bytes[..302]).ok().expect("even");
    parts.extend(split.decode(&bytes[302..1000]).ok().expect("even"));
    parts.extend(split.decode(&bytes[1000..]).ok().expect("even"));
    assert_eq!(all.len(), 2);
    assert_eq!(parts.len(), 2);
    for (a, b) in all.iter().zip(parts.iter()) {
        assert_eq!(a.data, b.data);
        assert_eq!(a.timestamp_ms, b.timestamp_ms);
    }
    assert_eq!(parts[1].timestamp_ms, 20);
    assert_eq!(parts[1].data[0], 320);
}

#[test]
fn vad_stream_alternates_and_signals_speech_state() {
    let timing = VadTiming { min_speech_ms: 40, silence_ms: 40 };
    let mut s = VadState::new();
    let frames: Vec<(bool, u64)> = [true, true, true, false, false, true, true, false, true, true, true]
        .iter()
        .enumerate()
        .map(|(i, &v)| (v, 20 * i as u64))
        .collect();
    let events = s.on_frames(&frames, &timing);
    assert_eq!(events.len(), 3);
    assert!(matches!(events[0], VadEvent::SpeechStarted { timestamp_ms: 20 }));
    assert!(matches!(events[1], VadEvent::SpeechEnded { timestamp_ms: 80 }));
    assert!(matches!(events[2], VadEvent::SpeechStarted { timestamp_ms: 120 }));
    let signals: Vec<bool> = events.iter().map(speech_state_signal).collect();
    assert_eq!(signals, vec![true, false, true]);
    assert!(matches!(s.on_stream_end(), Some(VadEvent::SpeechEnded { timestamp_ms: 200 })));
}

fn job() -> OutboundCallJob {
    OutboundCallJob {
        tenant_id: "t1".to_string(),
        campaign_id: "c1".to_string(),
        contact_id: "k1".to_string(),
        phone_number: "+15551234".to_string(),
        attempt: 1,
    }
}

fn facts(status: &str) -> CampaignFacts {
    CampaignFacts { status: status.to_string(), start_hour: Some(9), end_hour: Some(17), call_rate_per_minute: None }
}

#[test]
fn outbound_call_steps_through_a_placed_call() {
    let j = job();
    let (s, a) = outbound_call_step(DialStage::Start, &j, DialEvent::Begin);
    assert!(matches!(a, Some(DialAction::LookUpCampaign)));
    let (s, a) = outbound_call_step(s, &j, DialEvent::CampaignFound(facts("active"), 10));
    assert!(matches!(s, DialStage::CountingCall(10)));
    match a {
        Some(DialAction::CountCall(k)) => assert_eq!(k, "campaign:c1:dial_rate_1m"),
        _ => panic!("count the call"),
    }
    let (s, a) = outbound_call_step(s, &j, DialEvent::CallCounted(Some(10)));
    match a {
        Some(DialAction::Originate { endpoint, app_args }) => {
            assert_eq!(endpoint, "PJSIP/15551234");
            assert_eq!(app_args, "campaign_id=c1,contact_id=k1");
        }
        _ => panic!("originate"),
    }
    let (s, a) = outbound_call_step(s, &j, DialEvent::OriginateAnswered(200));
    assert!(matches!(a, Some(DialAction::MarkContactCalling)));
    let (s, a) = outbound_call_step(s, &j, DialEvent::Stored);
    assert!(matches!(a, Some(DialAction::CountRemainingContacts)));
    let (s, a) = outbound_call_step(s, &j, DialEvent::Remaining(Some(0)));
    assert!(matches!(a, Some(DialAction::CompleteCampaign)));
    let (s, a) = outbound_call_step(s, &j, DialEvent::Stored);
    assert!(matches!(a, Some(DialAction::Finish(JobResult::Done))));
    assert!(matches!(s, DialStage::Finished));
    let (_, a) = outbound_call_step(s, &j, DialEvent::Stored);
    assert!(a.is_none());
}

#[test]
fn outbound_call_stops_early_or_records_failure() {
    let j = job();
    let (_, a) = outbound_call_step(DialStage::LookingUpCampaign, &j, DialEvent::CampaignLookupFailed);
    assert!(matches!(a, Some(DialAction::Finish(JobResult::Abort))));
    let (_, a) = outbound_call_step(DialStage::LookingUpCampaign, &j, DialEvent::CampaignFound(facts("paused"), 10));
    assert!(matches!(a, Some(DialAction::Finish(JobResult::Done))));
    let (_, a) = outbound_call_step(DialStage::LookingUpCampaign, &j, DialEvent::CampaignFound(facts("active"), 17));
    assert!(matches!(a, Some(DialAction::Finish(JobResult::Failed(DialFailure::OutsideSchedule)))));
    let (_, a) = outbound_call_step(DialStage::CountingCall(10), &j, DialEvent::CallCounted(Some(11)));
    assert!(matches!(a, Some(DialAction::Finish(JobResult::Failed(DialFailure::RateLimited)))));
    let (_, a) = outbound_call_step(DialStage::CountingCall(10), &j, DialEvent::CallCounted(None));
    assert!(matches!(a, Some(DialAction::Originate { .. })));
    let (s, a) = outbound_call_step(DialStage::Originating, &j, DialEvent::OriginateAnswered(503));
    assert!(matches!(a, Some(DialAction::RecordFailure(RetryDecision::RetryAfterMinutes(15)))));
    let (_, a) = outbound_call_step(s, &j, DialEvent::Stored);
    assert!(matches!(a, Some(DialAction::Finish(JobResult::Failed(DialFailure::AriStatus(503))))));
    let mut last = job();
    last.attempt = 3;
    let (_, a) = outbound_call_step(DialStage::Originating, &last, DialEvent::OriginateUnreachable);
    assert!(matches!(a, Some(DialAction::RecordFailure(RetryDecision::MarkFailed))));
}

#[test]
fn platform_session_gives_its_slot_back_once() {
    let mut s = PlatformSession::new("t9");
    assert_eq!(s.active_key, "tenant:t9:active_sessions");
    assert!(matches!(s.on_event(PlatformEvent::BridgeEnded), None));
    assert!(matches!(
        s.on_event(PlatformEvent::Admission { active: 9, tenant_limit: None }),
        Some(PlatformAction::Admit)
    ));
    assert!(matches!(s.on_event(PlatformEvent::StartReceived(true)), Some(PlatformAction::CreateRecordAndStart)));
    assert!(matches!(s.on_event(PlatformEvent::PipelineStarted(true)), Some(PlatformAction::SendReady)));
    assert!(matches!(s.on_event(PlatformEvent::ReadySent(true)), Some(PlatformAction::RunBridge)));
    assert!(matches!(s.on_event(PlatformEvent::BridgeEnded), Some(PlatformAction::Finalize)));
    assert!(matches!(s.on_event(PlatformEvent::BridgeEnded), None));

    let mut refused = PlatformSession::new("t9");
    assert!(matches!(
        refused.on_event(PlatformEvent::Admission { active: 3, tenant_limit: Some(3) }),
        Some(PlatformAction::Reject)
    ));
    assert!(matches!(refused.on_event(PlatformEvent::StartReceived(true)), None));

    let mut late = PlatformSession::new("t9");
    late.on_event(PlatformEvent::Admission { active: 0, tenant_limit: Some(1) });
    assert!(matches!(late.on_event(PlatformEvent::StartReceived(false)), Some(PlatformAction::Release)));
    let mut unready = PlatformSession::new("t9");
    unready.on_event(PlatformEvent::Admission { active: 0, tenant_limit: Some(1) });
    unready.on_event(PlatformEvent::StartReceived(true));
    unready.on_event(PlatformEvent::PipelineStarted(true));
    assert!(matches!(unready.on_event(PlatformEvent::ReadySent(false)), Some(PlatformAction::TerminateAndRelease)));
}
