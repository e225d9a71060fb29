use voicebot::audiosocket::{
    audio_packets_for_samples, decode_packet, encode_audio_packet, encode_hangup_packet, AudioSocketPacket,
    RecordingState, KIND_AUDIO, KIND_HANGUP,
};
use voicebot::chunker::FrameChunker;
use voicebot::frame::AudioFrame;
use voicebot::pcm::{
    downsample_16k_to_8k, pcm_bytes_to_samples, sample_from_le_bytes, sample_to_le_bytes, samples_to_pcm_bytes,
    upsample_8k_to_16k,
};
use voicebot::rtp::{build_pcmu_packet, linear_to_mulaw, mulaw_to_linear, parse_rtp_payload, pcmu_payload_to_frame};

#[test]
fn downsample_upsample_roundtrip() {
    let original_16k: Vec<i16> = (0..320).map(|i| (i * 100) as i16).collect();
    let down_8k = downsample_16k_to_8k(&original_16k);
    assert_eq!(down_8k.len(), 160);
    let up_16k = upsample_8k_to_16k(&down_8k);
    assert_eq!(up_16k.len(), 320);
    for i in 0..160 {
        assert_eq!(up_16k[i * 2], original_16k[i * 2]);
    }
}

#[test]
fn parses_minimal_rtp_payload() {
    let packet = build_pcmu_packet(&[0; 320], 1, 160, 42);
    let payload = parse_rtp_payload(&packet).expect("payload");
    assert_eq!(payload.len(), 160);
}

#[test]
fn converts_pcmu_payload_back_to_frame() {
    let packet = build_pcmu_packet(&[500; 320], 1, 160, 42);
    let payload = parse_rtp_payload(&packet).expect("payload");
    let frame = pcmu_payload_to_frame(payload, 40);
    assert_eq!(frame.timestamp_ms, 40);
    assert_eq!(frame.sample_rate, 16_000);
    assert_eq!(frame.num_samples(), 320);
}

#[test]
fn test_frame_chunker_exact() {
    let mut chunker = FrameChunker::new(320);
    let chunks = chunker.push(&vec![1i16; 320]);
    assert_eq!(chunks.len(), 1);
    assert_eq!(chunks[0].len(), 320);
}

#[test]
fn test_frame_chunker_partial() {
    let mut chunker = FrameChunker::new(320);
    let chunks = chunker.push(&vec![1i16; 200]);
    assert_eq!(chunks.len(), 0);
    let chunks = chunker.push(&vec![2i16; 200]);
    assert_eq!(chunks.len(), 1);
    assert_eq!(chunks[0].len(), 320);
}

#[test]
fn test_frame_chunker_multiple() {
    let mut chunker = FrameChunker::new(320);
    let chunks = chunker.push(&vec![1i16; 700]);
    assert_eq!(chunks.len(), 2);
}

#[test]
fn frame_chunker_keeps_stream_order_across_pushes() {
    let mut chunker = FrameChunker::new(3);
    let mut out: Vec<i16> = Vec::new();
    for c in chunker.push(&[1, 2]) {
        out.extend(c);
    }
    for c in chunker.push(&[3, 4, 5, 6, 7]) {
        out.extend(c);
    }
    assert_eq!(out, vec![1, 2, 3, 4, 5, 6]);
}

#[test]
fn frame_chunker_push_with_calls_back_per_chunk() {
    let mut chunker = FrameChunker::new(2);
    let mut seen: Vec<Vec<i16>> = Vec::new();
    chunker.push_with(&[9, 8, 7, 6, 5], |c| seen.push(c.to_vec()));
    assert_eq!(seen, vec![vec![9, 8], vec![7, 6]]);
}

#[test]
fn pcm_bytes_roundtrip_little_endian() {
    let samples: Vec<i16> = vec![0, 1, -1, 256, i16::MIN, i16::MAX];
    let bytes = samples_to_pcm_bytes(&samples);
    assert_eq!(&bytes[..6], &[0, 0, 1, 0, 0xff, 0xff]);
    assert_eq!(pcm_bytes_to_samples(&bytes), samples);
    assert_eq!(sample_to_le_bytes(0x1234), (0x34, 0x12));
    assert_eq!(sample_from_le_bytes(0x34, 0x12), 0x1234);
}

#[test]
fn pcm_decode_drops_trailing_odd_byte() {
    assert_eq!(pcm_bytes_to_samples(&[1, 0, 7]), vec![1]);
}

#[test]
fn mulaw_known_codes() {
    assert_eq!(linear_to_mulaw(0), 0xFF);
    assert_eq!(mulaw_to_linear(0xFF), 0);
    assert_eq!(mulaw_to_linear(0x00), -32124);
    assert_eq!(mulaw_to_linear(0x80), 32124);
    for code in 0u8..=255 {
        if code != 0x7F {
            assert_eq!(linear_to_mulaw(mulaw_to_linear(code)), code);
        }
    }
}

#[test]
fn rtp_header_layout() {
    let packet = build_pcmu_packet(&[0; 4], 0x0102, 0x03040506, 0x0708090a);
    assert_eq!(&packet[..12], &[0x80, 0, 1, 2, 3, 4, 5, 6, 7, 8, 9, 10]);
    assert_eq!(packet.len(), 14);
}

#[test]
fn rtp_rejects_short_or_wrong_version() {
    assert!(parse_rtp_payload(&[0x80; 11]).is_none());
    let mut packet = build_pcmu_packet(&[0; 4], 1, 1, 1);
    packet[0] = 0x40;
    assert!(parse_rtp_payload(&packet).is_none());
}

#[test]
fn rtp_skips_csrc_extension_and_padding() {
    // version 2, padding, extension, one CSRC
    let mut packet = vec![0xB1u8, 0, 0, 1, 0, 0, 0, 1, 0, 0, 0, 1];
    packet.extend([0, 0, 0, 9]); // CSRC
    packet.extend([0, 0, 0, 1]); // extension header: one word
    packet.extend([1, 2, 3, 4]); // extension word
    packet.extend([10, 11, 12]); // payload
    packet.extend([0, 2]); // two bytes of padding
    let payload = parse_rtp_payload(&packet).expect("payload");
    assert_eq!(payload, &[10, 11, 12]);
}

#[test]
fn audiosocket_packets_roundtrip() {
    let bytes = encode_audio_packet(&[1, 2, 3]);
    assert_eq!(bytes, vec![KIND_AUDIO, 0, 3, 1, 2, 3]);
    let (packet, used) = decode_packet(&bytes).expect("packet");
    assert_eq!(packet.kind, KIND_AUDIO);
    assert_eq!(packet.payload, vec![1, 2, 3]);
    assert_eq!(used, 6);
    assert!(decode_packet(&bytes[..4]).is_none());
    assert_eq!(encode_hangup_packet(), vec![KIND_HANGUP, 0, 0]);
}

#[test]
fn audiosocket_playback_pads_last_packet() {
    let packets = audio_packets_for_samples(&[1i16; 170]);
    assert_eq!(packets.len(), 2);
    assert_eq!(packets[0].len(), 3 + 320);
    assert_eq!(packets[1].len(), 3 + 320);
    assert_eq!(packets[1][3 + 20], 0);
    assert_eq!(packets[1][3 + 19], 0);
    assert_eq!(packets[1][3 + 18], 1);
}

#[test]
fn recording_state_collects_audio_until_hangup() {
    let mut state = RecordingState::new();
    assert!(state.on_packet(&AudioSocketPacket { kind: KIND_AUDIO, payload: vec![5, 0, 6, 0] }));
    assert!(state.on_packet(&AudioSocketPacket { kind: 0x01, payload: vec![1, 2] }));
    assert!(!state.on_packet(&AudioSocketPacket { kind: KIND_HANGUP, payload: vec![] }));
    assert_eq!(state.recorded_samples, vec![5, 6]);
    assert!(state.hangup_received);
}

#[test]
fn frame_helpers() {
    let frame = AudioFrame::from_pcm_bytes(&[1, 0, 2, 0], 7);
    assert_eq!(frame.data, vec![1, 2]);
    assert_eq!(frame.timestamp_ms, 7);
    assert_eq!(frame.to_pcm_bytes(), vec![1, 0, 2, 0]);
    let silence = AudioFrame::silence(20, 3);
    assert_eq!(silence.num_samples(), 320);
    assert_eq!(silence.duration_ms(), 20);
    assert!(silence.data.iter().all(|s| *s == 0));
}

#[test]
fn frame_chunker_push_with_returns_one_result_per_chunk() {
    let mut a = FrameChunker::new(3);
    let mut b = FrameChunker::new(3);
    let input: Vec<i16> = (1..=11).collect();
    let firsts = a.push_with(&input[..4], |c| c[0]);
    let chunks = b.push(&input[..4]);
    assert_eq!(firsts, vec![1]);
    assert_eq!(chunks, vec![vec![1, 2, 3]]);
    let sums = a.push_with(&input[4..], |c| c.iter().map(|&x| x as i32).sum::<i32>());
    let chunks = b.push(&input[4..]);
    assert_eq!(sums, vec![4 + 5 + 6, 7 + 8 + 9]);
    assert_eq!(chunks, vec![vec![4, 5, 6], vec![7, 8, 9]]);
    // Both chunkers hold the same rest: one more sample completes a chunk.
    assert_eq!(a.push_with(&[12], |c| c.to_vec()), vec![vec![10, 11, 12]]);
    assert_eq!(b.push(&[12]), vec![vec![10, 11, 12]]);
}

#[test]
fn frame_chunker_many_pushes_hand_out_the_stream_in_order() {
    let mut chunker = FrameChunker::new(4);
    let pushes: Vec<Vec<i16>> = vec![vec![], vec![1], vec![2, 3, 4, 5, 6], vec![7], vec![8, 9, 10, 11, 12, 13, 14]];
    let mut out: Vec<i16> = Vec::new();
    for p in &pushes {
        for c in chunker.push(p) {
            assert_eq!(c.len(), 4);
            out.extend(c);
        }
    }
    // 14 samples pushed: the first 12 come out, 13 and 14 stay buffered.
    assert_eq!(out, (1..=12).collect::<Vec<i16>>());
    assert_eq!(chunker.push(&[15, 16]), vec![vec![13, 14, 15, 16]]);
}

#[test]
fn downsample_keeps_every_other_sample() {
    assert_eq!(downsample_16k_to_8k(&[5, 6, 7, 8, 9]), vec![5, 7, 9]);
    assert_eq!(downsample_16k_to_8k(&[5, 6]), vec![5]);
    assert_eq!(downsample_16k_to_8k(&[]), Vec::<i16>::new());
    let y: Vec<i16> = vec![3, -3, i16::MAX, i16::MIN];
    assert_eq!(downsample_16k_to_8k(&upsample_8k_to_16k(&y)), y);
}

#[test]
fn built_packet_parses_back_to_its_payload() {
    let samples: Vec<i16> = vec![0, 1, 1000, 2, -1000];
    let packet = build_pcmu_packet(&samples, 65535, 7, 9);
    let payload = parse_rtp_payload(&packet).expect("well formed");
    assert_eq!(payload.len(), 3);
    assert_eq!(payload, &packet[12..]);
    assert_eq!(payload, &[linear_to_mulaw(0), linear_to_mulaw(1000), linear_to_mulaw(-1000)]);
}

#[test]
fn mulaw_roundtrip_error_is_bounded() {
    for x in i16::MIN..=i16::MAX {
        let back = mulaw_to_linear(linear_to_mulaw(x)) as i32;
        let err = (back - x as i32).abs();
        assert!(err <= 644, "{x}");
        if x > -124 && x < 124 {
            assert!(err <= 4, "{x}");
        }
    }
    assert_eq!(mulaw_to_linear(linear_to_mulaw(i16::MIN)), -32124);
    assert_eq!(mulaw_to_linear(linear_to_mulaw(100)), 104);
}
