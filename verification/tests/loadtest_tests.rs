use voicebot::analysis::{analyze_voiced_windows, AnalysisTiming, CallAnalysis, VoicedRegion};
use voicebot::config::{
    default_app_name, default_call_timeout_ms, default_register_timeout_ms, default_rtp_port_max,
    default_rtp_port_min, default_sip_port, default_target_endpoint, default_window_ms, AnalysisSettings,
    AsteriskBackendConfig, BackendConfig, CampaignConfig, FloatChecks, LoadtestConfig, LoadtestError, MediaConfig,
    XphoneBackendConfig,
};
use voicebot::loadaudio::{
    active_state_check, check_wav_format, ensure_success, inbound_unsupported, normalize_decoded, playback_duration_ms,
    rate_plan, stereo_to_mono, NormalizedAudio, RatePlan, SipCallState,
};
use voicebot::report::{
    call_outcome, escape_html, first_response_bins, inspection_calls, opt_ms, opt_ms_label, percentile,
    push_metric_card, push_stat_item, relative_artifact_path, CallResult, CampaignSummary,
};
use voicebot::placeholders::{placeholder_names, substitute_env_vars};
use voicebot::runner::{
    call_dir_name, may_start_call, order_by_call_index, ramp_up_delay_ms, runner_step, RunnerEvent, RunnerState, RunnerStep,
};
use voicebot::report_page::{campaign_report_html, BarRow, OutcomeBar, ReportFigures};
use voicebot::wsserver::ClientMessage;
use voicebot::wsclient::{
    build_conversation_timeline, classify_server_text, decode_binary_message, text_contains, ServerSignal,
    TurnTtsAudio, WebSocketBackendConfig, WsBackend,
};

fn tone(duration_ms: u64, amplitude: i16) -> Vec<i16> {
    vec![amplitude; (16_000 * duration_ms / 1000) as usize]
}

fn silence(duration_ms: u64) -> Vec<i16> {
    vec![0; (16_000 * duration_ms / 1000) as usize]
}

/// Window verdicts as the load tester's energy gate gives them.
fn voiced_windows(samples: &[i16], window_ms: u32, threshold: f32) -> Vec<bool> {
    let w = ((16_000 * window_ms as u64) / 1000).max(1) as usize;
    samples
        .chunks(w)
        .map(|chunk| {
            let sum_sq: f64 = chunk.iter().map(|s| (*s as f64).powi(2)).sum();
            let rms = (sum_sq / chunk.len() as f64).sqrt() / i16::MAX as f64;
            rms > threshold as f64
        })
        .collect()
}

fn analyze(samples: &[i16], tx: u64, gap_threshold_ms: u64) -> CallAnalysis {
    let flags = voiced_windows(samples, 20, 0.02);
    analyze_voiced_windows(
        samples.len(),
        &flags,
        tx,
        &AnalysisTiming { window_ms: 20, gap_threshold_ms, stutter_gap_ms: 200 },
    )
}

#[test]
fn computes_first_response_and_gap_metrics() {
    let mut recorded = silence(300);
    recorded.extend(tone(200, 6_000));
    recorded.extend(silence(400));
    recorded.extend(tone(100, 6_000));
    let analysis = analyze(&recorded, 150, 250);
    assert_eq!(analysis.first_response_ms, Some(150));
    assert!(analysis.longest_gap_ms >= 380);
    assert_eq!(analysis.gap_count_over_threshold, 1);
}

#[test]
fn analysis_detects_missing_response() {
    let recorded = silence(1000);
    let analysis = analyze(&recorded, 200, 250);
    assert_eq!(analysis.first_response_ms, None);
    assert_eq!(analysis.voiced_duration_ms, 0);
}

#[test]
fn analysis_detects_response_after_tx_finishes() {
    let mut recorded = tone(150, 5_000);
    recorded.extend(silence(200));
    recorded.extend(tone(100, 5_000));
    let analysis = analyze(&recorded, 100, 150);
    assert_eq!(analysis.first_response_ms, Some(0));
    assert!(analysis.gap_count_over_threshold >= 1);
}

#[test]
fn analysis_durations_add_up() {
    let mut recorded = silence(100);
    recorded.extend(tone(300, 8_000));
    let analysis = analyze(&recorded, 0, 250);
    assert_eq!(analysis.recorded_duration_ms, 400);
    assert_eq!(analysis.voiced_duration_ms + analysis.silence_duration_ms, 400);
    assert_eq!(analysis.voiced_regions.len(), 1);
    assert_eq!(analysis.voiced_regions[0].start_ms, 100);
    assert_eq!(analysis.voiced_regions[0].end_ms, 400);
}

fn xphone() -> XphoneBackendConfig {
    XphoneBackendConfig {
        sip_host: "localhost".into(),
        local_ip: "0.0.0.0".into(),
        sip_port: default_sip_port(),
        transport: "udp".into(),
        username: "voicebot".into(),
        password: "voicebot".into(),
        rtp_port_min: default_rtp_port_min(),
        rtp_port_max: default_rtp_port_max(),
        register_timeout_ms: default_register_timeout_ms(),
        call_timeout_ms: default_call_timeout_ms(),
    }
}

fn asterisk() -> AsteriskBackendConfig {
    AsteriskBackendConfig {
        ari_host: "localhost".into(),
        ari_port: 8088,
        username: "voicebot".into(),
        password: "voicebot".into(),
        app_name: default_app_name(),
        audio_host: "172.17.0.1".into(),
        accept_timeout_ms: 10_000,
    }
}

fn config(kind: &str, mode: &str, target: String) -> LoadtestConfig {
    LoadtestConfig {
        backend: BackendConfig {
            kind: kind.into(),
            asterisk: if kind == "xphone" { None } else { Some(asterisk()) },
            xphone: if kind == "xphone" { Some(xphone()) } else { None },
        },
        campaign: CampaignConfig {
            name: "phase1-outbound".into(),
            mode: mode.into(),
            target_endpoint: target,
            caller_id: "voicebot-loadtest".into(),
            settle_before_playback_ms: 500,
            record_after_playback_ms: 3_000,
            concurrency: 1,
            total_calls: if mode == "inbound" { 5 } else { 1 },
            soak_duration_secs: 0,
            ramp_up_ms: 0,
            inbound_timeout_ms: 30_000,
        },
        media: MediaConfig { input_wav: "tests/fixtures/hello.wav".into(), artifact_dir: "artifacts/loadtest".into() },
        analysis: AnalysisSettings { window_ms: default_window_ms(), gap_threshold_ms: 250, stutter_gap_ms: 200 },
    }
}

const FLOATS_OK: FloatChecks = FloatChecks { call_rate_non_negative: true, silence_threshold_in_range: true };

#[test]
fn parses_config_with_defaults() {
    let config = config("asterisk-external-media", "outbound", default_target_endpoint());
    assert_eq!(config.campaign.target_endpoint, "Local/1000@dp_entry_call_in");
    assert_eq!(config.analysis.window_ms, 20);
    assert!(config.validate(&FLOATS_OK).is_ok(), "config should validate");
}

#[test]
fn parses_xphone_config_with_defaults() {
    let config = config("xphone", "outbound", default_target_endpoint());
    assert_eq!(config.backend.kind, "xphone");
    let x = config.backend.xphone.as_ref().unwrap();
    assert_eq!(x.sip_port, 5060);
    assert_eq!(x.rtp_port_min, 20000);
    assert_eq!(x.rtp_port_max, 20100);
    assert_eq!(x.register_timeout_ms, 10_000);
    assert_eq!(x.call_timeout_ms, 30_000);
    assert!(config.validate(&FLOATS_OK).is_ok(), "xphone config should validate");
}

#[test]
fn parses_inbound_config() {
    let config = config("xphone", "inbound", String::new());
    assert_eq!(config.campaign.mode, "inbound");
    assert_eq!(config.campaign.inbound_timeout_ms, 30_000);
    assert!(config.validate(&FLOATS_OK).is_ok(), "inbound config should validate");
}

#[test]
fn rejects_inbound_mode_with_asterisk_backend() {
    let config = config("asterisk-external-media", "inbound", default_target_endpoint());
    match config.validate(&FLOATS_OK) {
        Err(LoadtestError::InvalidConfig(m)) => assert!(m.contains("inbound mode is only supported")),
        _ => panic!("expected an invalid configuration"),
    }
}

#[test]
fn rejects_negative_call_rate() {
    let config = config("asterisk-external-media", "outbound", default_target_endpoint());
    let floats = FloatChecks { call_rate_non_negative: false, silence_threshold_in_range: true };
    assert!(matches!(config.validate(&floats), Err(LoadtestError::InvalidConfig(_))));
}

fn call(i: usize, outcome: &str, first: Option<u64>) -> CallResult {
    CallResult {
        call_index: i,
        outcome: outcome.into(),
        error: None,
        connect_ms: 0,
        tx_started_at_ms: 0,
        tx_finished_at_ms: 0,
        recorded_samples: 0,
        hangup_received: false,
        analysis: first.map(|f| CallAnalysis {
            recorded_duration_ms: 1000,
            voiced_duration_ms: 500,
            silence_duration_ms: 500,
            first_response_ms: Some(f),
            longest_gap_ms: 100,
            gap_count_over_threshold: 0,
            stutter_count: 1,
            voiced_regions: vec![VoicedRegion { start_ms: 100, end_ms: 600 }],
        }),
        rx_wav_path: format!("/tmp/run/calls/{:04}/rx.wav", i),
    }
}

fn summary() -> CampaignSummary {
    CampaignSummary::compute(
        "c1".into(),
        "Smoke".into(),
        "xphone".into(),
        1000,
        "/tmp/run".into(),
        vec![call(0, "success", Some(110)), call(1, "failed", None), call(2, "success", Some(900))],
    )
}

#[test]
fn campaign_summary_counts_and_percentiles() {
    let s = summary();
    assert_eq!(s.total_calls, 3);
    assert_eq!(s.successful, 2);
    assert_eq!(s.failed, 1);
    assert_eq!(s.p50_first_response_ms, Some(110));
    assert_eq!(s.avg_first_response_ms, Some(505));
    assert_eq!(percentile(&[1, 2, 3, 4, 5], 50), Some(3));
    assert_eq!(percentile(&[], 50), None);
}

#[test]
fn first_response_histogram_counts_each_call_once() {
    let rows = first_response_bins(&summary());
    assert_eq!(rows.len(), 6);
    assert_eq!(rows.iter().map(|r| r.1).sum::<usize>(), 3);
    assert_eq!(rows[0], ("0-250 ms".to_string(), 1));
    assert_eq!(rows[2], ("501-1000 ms".to_string(), 1));
    assert_eq!(rows[5], ("No response".to_string(), 1));
}

#[test]
fn inspection_puts_failures_first() {
    let s = summary();
    let calls = inspection_calls(&s);
    assert_eq!(calls.len(), 3);
    assert_eq!(calls[0].outcome, "failed");
}

#[test]
fn report_text_helpers() {
    assert_eq!(escape_html("<a href='x'>&\"</a>"), "&lt;a href=&#39;x&#39;&gt;&amp;&quot;&lt;/a&gt;");
    assert_eq!(opt_ms(Some(12)), "12 ms");
    assert_eq!(opt_ms(None), "—");
    assert_eq!(opt_ms_label("p50", Some(3)), "p50: 3 ms");
    let mut html = String::new();
    push_stat_item(&mut html, "a<b", "1");
    assert_eq!(html, "          <div class=\"stat-item\"><span>a&lt;b</span><strong>1</strong></div>\n");
    let mut card = String::new();
    push_metric_card(&mut card, "L", "V", "N");
    assert!(card.contains("<div class=\"metric-value\">V</div>"));
}

#[test]
fn artifact_paths_are_relative_to_the_run() {
    let s = summary();
    assert_eq!(relative_artifact_path(&s, "/tmp/run/calls/0000/rx.wav"), "calls/0000/rx.wav");
    assert_eq!(relative_artifact_path(&s, "/elsewhere/x.wav"), "/elsewhere/x.wav");
}

#[test]
fn call_outcomes() {
    let mut a = call(0, "success", Some(5)).analysis.unwrap();
    assert_eq!(call_outcome(&[1], &a), "success");
    a.first_response_ms = None;
    assert_eq!(call_outcome(&[], &a), "no_audio");
    assert_eq!(call_outcome(&[1], &a), "completed_without_response");
}

#[test]
fn runner_decisions() {
    assert!(may_start_call(true, 3, 0));
    assert!(!may_start_call(true, 3, 3));
    assert!(!may_start_call(false, 0, 5));
    assert!(matches!(runner_step(true, 1, 2), RunnerStep::Start));
    assert!(matches!(runner_step(false, 0, 2), RunnerStep::Finish));
    assert!(matches!(runner_step(true, 2, 2), RunnerStep::Wait));
    assert_eq!(ramp_up_delay_ms(1, 1000, 4), Some(250));
    assert_eq!(ramp_up_delay_ms(4, 1000, 4), None);
    assert_eq!(ramp_up_delay_ms(0, 0, 4), None);
    assert_eq!(call_dir_name(7), "0007");
    assert_eq!(call_dir_name(12345), "12345");
    let ordered = order_by_call_index(vec![(2, "c"), (0, "a"), (1, "b")]);
    assert_eq!(ordered, vec![(0, "a"), (1, "b"), (2, "c")]);
}

#[test]
fn wav_checks_and_normalization() {
    assert!(check_wav_format("x.wav", false, 16, 2).is_ok());
    match check_wav_format("x.wav", true, 32, 1) {
        Err(LoadtestError::UnsupportedWav { path, reason }) => {
            assert_eq!(path, "x.wav");
            assert_eq!(reason, "expected 16-bit PCM integer WAV, got Float 32-bit");
        }
        _ => panic!("expected unsupported wav"),
    }
    match check_wav_format("x.wav", false, 16, 3) {
        Err(LoadtestError::UnsupportedWav { reason, .. }) => assert_eq!(reason, "expected mono or stereo WAV, got 3 channels"),
        _ => panic!("expected unsupported wav"),
    }
    assert_eq!(stereo_to_mono(&[100, 300, 200, 400, -3, 0, 9]), vec![200, 300, -1]);
    let a = normalize_decoded(&[100, 300, 200, 400], 2, 8000).expect("8 kHz is upsampled");
    assert_eq!(a.samples, vec![200, 200, 300, 300]);
    assert_eq!(a.sample_rate, 16000);
    assert!(normalize_decoded(&[1], 1, 24000).is_none());
    assert!(matches!(rate_plan(24000), RatePlan::Resample(24000)));
    let audio = NormalizedAudio { sample_rate: 16000, channels: 1, samples: vec![0; 8000] };
    assert_eq!(audio.duration_ms(), 500);
    assert_eq!(playback_duration_ms(32000), 2000);
}

#[test]
fn backend_errors() {
    assert!(ensure_success(204, "u").is_ok());
    match ensure_success(404, "http://h/ari/x") {
        Err(LoadtestError::Protocol(m)) => assert_eq!(m, "ARI REST error 404 for http://h/ari/x"),
        _ => panic!("expected a protocol error"),
    }
    match inbound_unsupported("websocket") {
        LoadtestError::InvalidConfig(m) => assert_eq!(m, "backend 'websocket' does not support inbound mode"),
        _ => panic!("expected invalid config"),
    }
    assert!(matches!(active_state_check(SipCallState::OnHold), Some(Ok(()))));
    assert!(active_state_check(SipCallState::Other).is_none());
    assert!(matches!(active_state_check(SipCallState::Ended), Some(Err(LoadtestError::Protocol(_)))));
}

#[test]
fn websocket_backend_helpers() {
    let b = WsBackend::new(WebSocketBackendConfig {
        url: "ws://x".into(),
        turns_per_session: 0,
        turn_timeout_ms: 1,
        language: "th".into(),
        asr: "a".into(),
        tts: "t".into(),
    });
    assert_eq!(b.turns(), 1);
    assert_eq!(b.backend_name(), "websocket");
    assert!(text_contains("abc", "bc"));
    assert!(!text_contains("abc", "cb"));
    assert!(text_contains("abc", ""));
    assert!(matches!(classify_server_text("{\"type\":\"session_ready\"}"), ServerSignal::SessionReady));
    assert!(matches!(classify_server_text("{\"type\":\"tts_complete\"}"), ServerSignal::TtsComplete));
    assert!(matches!(classify_server_text("{\"type\":\"x\"}"), ServerSignal::Other));
    assert_eq!(decode_binary_message(&[1, 0, 2]), None);
    assert_eq!(decode_binary_message(&[1, 0, 2, 0]), Some(vec![1, 2]));
}

#[test]
fn conversation_timeline_places_and_mixes_audio() {
    let mut turn = TurnTtsAudio::new();
    turn.add_chunk(1, &[10, 20]);
    turn.add_chunk(5, &[30]);
    assert_eq!(turn.first_arrival_ms, Some(1));
    let empty = TurnTtsAudio::new();
    // Bot audio at 1 ms (sample 16), caller audio at 0 ms and at 1 ms.
    let tx: Vec<i16> = (1..=17).collect();
    let rec = build_conversation_timeline(&[turn, empty], &[0, 1], &tx);
    assert_eq!(rec.len(), 33);
    assert_eq!(rec[0], 1);
    assert_eq!(rec[16], 10 + 17 + 1);
    assert_eq!(rec[17], 20 + 2);
    assert_eq!(rec[18], 30 + 3);
    assert_eq!(rec[32], 17);
    let loud = build_conversation_timeline(&[], &[0, 0], &[30000, -30000]);
    assert_eq!(loud, vec![32767, -32768]);
}

#[test]
fn outcome_rows_known_first_then_text_order() {
    let s = CampaignSummary::compute(
        "c".into(),
        "n".into(),
        "b".into(),
        0,
        "/tmp".into(),
        vec![
            call(0, "zeta", None),
            call(1, "failed", None),
            call(2, "success", Some(1)),
            call(3, "alpha", None),
            call(4, "failed", None),
            call(5, "zeta", None),
        ],
    );
    let rows = voicebot::outcome_table::outcome_rows(&s);
    assert_eq!(
        rows,
        vec![
            ("success".to_string(), 1),
            ("failed".to_string(), 2),
            ("alpha".to_string(), 1),
            ("zeta".to_string(), 2),
        ]
    );
    assert!(voicebot::outcome_table::text_less("abc", "abd"));
    assert!(voicebot::outcome_table::text_less("ab", "abc"));
    assert!(!voicebot::outcome_table::text_less("b", "abc"));
}

#[test]
fn env_placeholders_are_found_and_replaced() {
    let text = "url=${HOST}:${PORT}/x ${} $${A} ${open";
    assert_eq!(placeholder_names(text), vec!["HOST".to_string(), "PORT".to_string(), "A".to_string()]);
    let values = vec![Some("h".to_string()), Some("80".to_string()), Some("a".to_string())];
    match substitute_env_vars(text, &values) {
        Ok(s) => assert_eq!(s, "url=h:80/x ${} $a ${open"),
        Err(_) => panic!("every value is present"),
    }
    let values = vec![None, Some("80".to_string()), None];
    match substitute_env_vars(text, &values) {
        Err(LoadtestError::MissingEnvVars(m)) => assert_eq!(m, vec!["HOST".to_string(), "A".to_string()]),
        _ => panic!("expected missing variables"),
    }
    assert!(placeholder_names("no placeholders").is_empty());
}

#[test]
fn runner_state_never_exceeds_concurrency() {
    let mut state = RunnerState::new();
    let mut max_running = 0;
    // Three calls, two at a time; a call finishes after every second poll.
    for round in 0..20 {
        match state.step(RunnerEvent::Poll { within_deadline: true }, 3, 2) {
            RunnerStep::Start => {
                state.step(RunnerEvent::CallStarted, 3, 2);
            }
            RunnerStep::Finish => break,
            RunnerStep::Wait => {
                state.step(RunnerEvent::CallDone, 3, 2);
            }
        }
        if round % 2 == 1 && state.running > 0 {
            state.step(RunnerEvent::CallDone, 3, 2);
        }
        max_running = max_running.max(state.running);
    }
    assert!(state.finished);
    assert_eq!(state.started, 3);
    assert_eq!(state.running, 0);
    assert!(max_running <= 2);
    // A call finishing while the next one is being paced clears it again.
    let mut s = RunnerState::new();
    assert!(matches!(s.step(RunnerEvent::Poll { within_deadline: true }, 0, 1), RunnerStep::Start));
    s.step(RunnerEvent::CallDone, 0, 1);
    s.step(RunnerEvent::CallStarted, 0, 1);
    assert_eq!(s.started, 0);
    // Past the deadline with nothing running, the run is over.
    let mut t = RunnerState::new();
    assert!(matches!(t.step(RunnerEvent::Poll { within_deadline: false }, 0, 1), RunnerStep::Finish));
}

#[test]
fn analysis_regions_lie_in_order_within_the_recording() {
    let mut recorded = tone(100, 8_000);
    recorded.extend(silence(60));
    recorded.extend(tone(50, 8_000));
    recorded.extend(vec![8_000i16; 100]);
    let a = analyze(&recorded, 0, 250);
    assert_eq!(a.recorded_duration_ms, 216);
    assert_eq!(a.voiced_regions.len(), 2);
    for (k, r) in a.voiced_regions.iter().enumerate() {
        assert!(r.start_ms <= r.end_ms && r.end_ms <= a.recorded_duration_ms);
        if k > 0 {
            assert!(a.voiced_regions[k - 1].end_ms <= r.start_ms);
        }
    }
    assert_eq!(a.voiced_regions[1].end_ms, 216);
}

#[test]
fn session_plan_frames_speech_then_silence() {
    let b = WsBackend::new(WebSocketBackendConfig {
        url: "ws://x".into(),
        turns_per_session: 2,
        turn_timeout_ms: 1,
        language: "th".into(),
        asr: "a".into(),
        tts: "t".into(),
    });
    let tx: Vec<i16> = (0..700).map(|i| i as i16).collect();
    let plan = b.session_plan(&tx);
    assert_eq!(plan.turns, 2);
    assert_eq!(plan.speech_frames.len(), 3);
    assert_eq!(plan.speech_frames[0].len(), 640);
    assert_eq!(plan.speech_frames[2].len(), 120);
    assert_eq!(&plan.speech_frames[1][..2], &320i16.to_le_bytes());
    assert_eq!(plan.silence_frames.len(), 50);
    assert!(plan.silence_frames.iter().all(|f| f.len() == 640 && f.iter().all(|b| *b == 0)));
    match plan.start {
        ClientMessage::SessionStart { language, asr, tts, sample_rate } => {
            assert_eq!((language.as_str(), asr.as_str(), tts.as_str(), sample_rate), ("th", "a", "t", Some(16000)));
        }
        ClientMessage::SessionEnd => panic!("the session starts first"),
    }
    assert!(matches!(plan.end, ClientMessage::SessionEnd));
}

#[test]
fn report_page_sections_in_order_and_escaped() {
    let mut s = summary();
    s.campaign_name = "<Smoke & Mirrors>".into();
    let figures = ReportFigures {
        duration_s: "1.0".into(),
        success_rate: "66.7".into(),
        avg_voiced_share: "50.0".into(),
        outcomes: vec![OutcomeBar { label: "success".into(), count: 2, width: "100.0".into(), share: "66.7".into() }],
        latency: vec![BarRow { label: "0-250 ms".into(), count: 1, width: "100.0".into() }],
        longest_gaps: vec![BarRow { label: "a".into(), count: 2, width: "100.0".into() }],
        all_gaps: vec![BarRow { label: "b".into(), count: 5, width: "100.0".into() }],
        call_shares: vec![Some("50.0".into()), None, Some("50.0".into())],
    };
    let html = campaign_report_html(&s, &figures, "body {}\n");
    assert!(html.starts_with("<!DOCTYPE html>\n"));
    assert!(html.ends_with("</html>\n"));
    assert!(html.contains("<h1>&lt;Smoke &amp; Mirrors&gt;</h1>"));
    assert!(!html.contains("<Smoke"));
    assert!(html.contains("<style>\nbody {}\n    </style>"));
    assert!(html.contains("<div class=\"metric-value\">66.7%</div>"));
    assert!(html.contains("<span>Analyzed calls</span><strong>2</strong>"));
    assert!(html.contains("<span>Total gaps observed</span><strong>5</strong>"));
    let order = ["class=\"hero\"", "Success Rate", "Outcome Mix", "First Response Latency", "Longest Gap Histogram",
        "All Gap Histogram", "Quality Signals", "Calls To Inspect", "Per-Call Detail"];
    let positions: Vec<usize> = order.iter().map(|m| html.find(m).expect("section present")).collect();
    assert!(positions.windows(2).all(|w| w[0] < w[1]));
    assert!(html.contains("<td>50.0%</td>"));
    assert!(html.contains("<a href=\"calls/0001/rx.wav\">rx.wav</a>"));
}
