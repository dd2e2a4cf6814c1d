use voice_relay::chunks::split_message;
use voice_relay::gate::{peak_amplitude, sample_magnitude, NoiseGate};
use voice_relay::limiter::{Admission, RateLimiter};
use voice_relay::osc::{chat_packet, chat_packets, typing_packet};
use voice_relay::pipeline::{
    calculate_audio_duration, check_audio_payload, compose_reply, consume_event, is_long_enough,
    plan_segment, ConsumerAction,
    transcription_outcome, translation_prompt, AudioDuration, SegmentPlan, TranscriptionError,
};
use voice_relay::segmenter::{AudioEvent, EventKind, Segmenter};

fn bits(v: &[f32]) -> Vec<u32> {
    v.iter().map(|x| x.to_bits()).collect()
}

fn kinds(events: &[AudioEvent]) -> Vec<EventKind> {
    events.iter().map(|e| e.kind()).collect()
}

fn gate(threshold: f32, hold_ms: u64) -> NoiseGate {
    NoiseGate::new(threshold.to_bits(), hold_ms, 0)
}

#[test]
fn magnitude_ignores_sign_and_nan() {
    assert_eq!(sample_magnitude((-0.5f32).to_bits()), 0.5f32.to_bits());
    assert_eq!(sample_magnitude(0.25f32.to_bits()), 0.25f32.to_bits());
    assert_eq!(sample_magnitude(f32::NAN.to_bits()), 0);
    assert_eq!(peak_amplitude(&bits(&[0.1, -0.7, 0.3, f32::NAN])), 0.7f32.to_bits());
    assert_eq!(peak_amplitude(&[]), 0);
}

#[test]
fn loud_block_opens_gate_and_resets_hold() {
    let mut g = gate(0.1, 500);
    assert!(g.process(&bits(&[0.0, 0.5, -0.2]), 1000));
    assert_eq!(g.last_active_ms, 1000);
    assert!(g.process(&bits(&[-0.9]), 1400));
    assert_eq!(g.last_active_ms, 1400);
    // a block exactly at the threshold does not count as loud
    let mut h = gate(0.5, 0);
    assert!(!h.process(&bits(&[0.5, -0.5]), 10));
}

#[test]
fn gate_closes_after_hold() {
    let mut g = gate(0.1, 500);
    assert!(g.process(&bits(&[0.5]), 1000));
    assert!(g.process(&bits(&[0.01]), 1200));
    assert!(g.process(&bits(&[0.01]), 1500));
    assert!(!g.process(&bits(&[0.01]), 1501));
    assert!(!g.process(&bits(&[0.0]), 5000));
}

fn segmenter(threshold: u32) -> Segmenter {
    Segmenter::new(gate(0.1, 100), threshold, 1, 16000)
}

#[test]
fn burst_then_silence_yields_one_segment() {
    let mut s = segmenter(3);
    let loud = bits(&[0.5; 160]);
    let quiet = bits(&[0.0; 160]);
    let mut all: Vec<EventKind> = Vec::new();
    all.extend(kinds(&s.process_block(&loud, 0)));
    let mut t: u64 = 10;
    for _ in 0..40 {
        all.extend(kinds(&s.process_block(&quiet, t)));
        t += 10;
    }
    assert_eq!(all, vec![EventKind::Started, EventKind::Ended, EventKind::Stopped]);
    assert!(!s.recording);
    assert!(s.buffer.is_empty());
}

#[test]
fn short_dip_keeps_one_segment() {
    let mut s = segmenter(3);
    let loud = bits(&[0.5; 100]);
    let quiet = bits(&[0.0; 100]);
    let mut all: Vec<EventKind> = Vec::new();
    all.extend(kinds(&s.on_decision(true, &loud)));
    all.extend(kinds(&s.on_decision(false, &quiet)));
    all.extend(kinds(&s.on_decision(false, &quiet)));
    all.extend(kinds(&s.on_decision(true, &loud)));
    assert_eq!(all, vec![EventKind::Started]);
    assert!(s.recording);
    assert_eq!(s.silent_frames, 0);
    assert_eq!(s.buffer.len(), 400);
}

#[test]
fn zero_threshold_closes_on_first_quiet_block() {
    let mut s = segmenter(0);
    let loud = bits(&[0.5; 10]);
    assert_eq!(kinds(&s.on_decision(true, &loud)), vec![EventKind::Started]);
    assert_eq!(kinds(&s.on_decision(false, &loud)), vec![EventKind::Ended, EventKind::Stopped]);
}

#[test]
fn two_second_segment_has_matching_duration() {
    let rate: u32 = 16000;
    let mut s = Segmenter::new(gate(0.1, 0), 2, 1, rate);
    let block = bits(&vec![0.5f32; 2 * rate as usize]);
    let quiet = bits(&[0.0; 100]);
    let mut payloads: Vec<Vec<u8>> = Vec::new();
    let mut t: u64 = 0;
    for b in [&block, &quiet, &quiet, &quiet] {
        for e in s.process_block(b, t) {
            if let AudioEvent::AudioData(p) = e {
                payloads.push(p);
            }
        }
        t += 2000;
    }
    assert_eq!(payloads.len(), 1);
    assert_eq!(&payloads[0][0..4], b"RIFF");
    // the first quiet block is held in the segment, the second closes it
    let accumulated = 2 * rate + 100;
    let d = calculate_audio_duration(&payloads[0]).unwrap();
    assert_eq!(d, AudioDuration { frames: accumulated, sample_rate: rate });
    let secs = d.frames as f64 / d.sample_rate as f64;
    assert!((secs - accumulated as f64 / rate as f64).abs() < 1e-9);
    assert_eq!(plan_segment(&payloads[0], 1000), SegmentPlan::Transcribe);
}

#[test]
fn short_segment_is_not_transcribed() {
    let rate: u32 = 16000;
    let mut s = Segmenter::new(gate(0.1, 0), 1, 1, rate);
    let block = bits(&vec![0.5f32; 800]);
    s.process_block(&block, 0);
    let events = s.process_block(&bits(&[0.0]), 100);
    assert_eq!(kinds(&events), vec![EventKind::Ended, EventKind::Stopped]);
    let payload = match &events[0] {
        AudioEvent::AudioData(p) => p.clone(),
        _ => unreachable!(),
    };
    assert_eq!(plan_segment(&payload, 500), SegmentPlan::TooShort);
    assert!(matches!(consume_event(AudioEvent::AudioData(payload.clone()), 500), ConsumerAction::SetTyping(false)));
    match consume_event(AudioEvent::AudioData(payload.clone()), 50) {
        ConsumerAction::Transcribe(p) => assert_eq!(p, payload),
        _ => panic!("expected transcription"),
    }
    assert!(matches!(consume_event(AudioEvent::StartRecording, 0), ConsumerAction::SetTyping(true)));
    assert!(matches!(consume_event(AudioEvent::StopRecording, 0), ConsumerAction::SetTyping(false)));
    assert!(matches!(consume_event(AudioEvent::AudioData(vec![0; 4]), 0), ConsumerAction::Unreadable));
    assert_eq!(plan_segment(&payload, 50), SegmentPlan::Transcribe);
    assert_eq!(plan_segment(&vec![1, 2, 3], 0), SegmentPlan::Unreadable);
}

#[test]
fn duration_threshold_is_exact() {
    let d = AudioDuration { frames: 8000, sample_rate: 16000 };
    assert!(is_long_enough(d, 500));
    assert!(!is_long_enough(d, 501));
    assert!(!is_long_enough(AudioDuration { frames: 10, sample_rate: 0 }, 0));
    assert!(is_long_enough(AudioDuration { frames: u32::MAX, sample_rate: 1 }, u64::MAX / 1_000_000_000));
}

#[test]
fn limiter_admits_max_then_waits() {
    let mut r = RateLimiter::new(3, 1000);
    assert_eq!(r.wait(1000), Admission::Granted);
    assert_eq!(r.wait(2000), Admission::Granted);
    assert_eq!(r.wait(30000), Admission::Granted);
    assert_eq!(r.request_count, 3);
    assert_eq!(r.wait(31000), Admission::Wait(30000));
    assert_eq!(r.request_count, 3);
    assert_eq!(r.wait(61000), Admission::Granted);
    assert_eq!(r.request_count, 1);
    assert_eq!(r.last_request_ms, 61000);
}

#[test]
fn limiter_with_zero_cap_waits_each_window() {
    let mut r = RateLimiter::new(0, 0);
    assert_eq!(r.wait(10), Admission::Wait(59990));
    assert_eq!(r.wait(60000), Admission::Granted);
    assert_eq!(r.wait(60001), Admission::Wait(59999));
}

#[test]
fn chunks_count_and_rejoin() {
    let text: String = "abcdefghij".to_string();
    let c = split_message(&text, 3, 10);
    let texts: Vec<&str> = c.iter().map(|x| x.text.as_str()).collect();
    assert_eq!(texts, vec!["abc", "def", "ghi", "j"]);
    let firsts: Vec<bool> = c.iter().map(|x| x.first).collect();
    assert_eq!(firsts, vec![true, false, false, false]);
    let capped = split_message(&text, 3, 2);
    let joined: String = capped.iter().map(|x| x.text.as_str()).collect();
    assert_eq!(joined, "abcdef");
    assert_eq!(split_message("", 3, 2).len(), 0);
    assert_eq!(split_message("abcdef", 3, 5).len(), 2);
    assert_eq!(split_message("abc", 3, 0).len(), 0);
}

#[test]
fn chunks_keep_multibyte_characters_whole() {
    let text = "héllo wörld ✓✓".to_string();
    let c = split_message(&text, 4, 10);
    let texts: Vec<&str> = c.iter().map(|x| x.text.as_str()).collect();
    assert_eq!(texts, vec!["héll", "o wö", "rld ", "✓✓"]);
    let long: String = "é".repeat(300);
    let c = split_message(&long, 144, 5);
    assert_eq!(c.len(), 3);
    assert_eq!(c[0].text.chars().count(), 144);
    assert_eq!(c[2].text.chars().count(), 12);
}

#[test]
fn typing_packet_bytes() {
    let mut expected: Vec<u8> = b"/chatbox/typing\0".to_vec();
    expected.extend_from_slice(b",T\0\0");
    assert_eq!(typing_packet(true), expected);
    let mut off: Vec<u8> = b"/chatbox/typing\0".to_vec();
    off.extend_from_slice(b",F\0\0");
    assert_eq!(typing_packet(false), off);
}

#[test]
fn chat_packet_bytes() {
    let mut expected: Vec<u8> = b"/chatbox/input\0\0".to_vec();
    expected.extend_from_slice(b",sTT\0\0\0\0");
    expected.extend_from_slice(b"hi\0\0");
    assert_eq!(chat_packet("hi", true), expected);
    let p = chat_packets("abcd", 2, 5);
    assert_eq!(p.len(), 2);
    let mut second: Vec<u8> = b"/chatbox/input\0\0".to_vec();
    second.extend_from_slice(b",sTF\0\0\0\0");
    second.extend_from_slice(b"cd\0\0");
    assert_eq!(p[1], second);
    assert_eq!(p[0], {
        let mut v: Vec<u8> = b"/chatbox/input\0\0".to_vec();
        v.extend_from_slice(b",sTT\0\0\0\0");
        v.extend_from_slice(b"ab\0\0");
        v
    });
}

#[test]
fn transcription_outcomes() {
    assert_eq!(check_audio_payload(&vec![]), Err(TranscriptionError::EmptyInput));
    assert_eq!(check_audio_payload(&vec![1]), Ok(()));
    assert_eq!(transcription_outcome(false, true, "x".to_string()), Err(TranscriptionError::Network));
    assert_eq!(
        transcription_outcome(true, false, "x".to_string()),
        Err(TranscriptionError::NonSuccessStatus)
    );
    assert_eq!(transcription_outcome(true, true, String::new()), Err(TranscriptionError::EmptyResult));
    assert_eq!(transcription_outcome(true, true, "hola".to_string()), Ok("hola".to_string()));
}

#[test]
fn prompt_and_reply_text() {
    assert_eq!(
        translation_prompt("German", "hello"),
        "You are a language translation app for VRChat. Answer only in the target language. Do not quote the translation. target_language=German Text:\n\nhello"
    );
    assert_eq!(compose_reply("Hallo".to_string(), "hello", true), "Hallo\nhello");
    assert_eq!(compose_reply("Hallo".to_string(), "hello", false), "Hallo");
}


#[test]
fn partial_frame_segment_is_dropped() {
    let mut s = Segmenter::new(gate(0.1, 0), 1, 2, 48000);
    let odd = bits(&[0.5, 0.5, 0.5]);
    assert_eq!(kinds(&s.on_decision(true, &odd)), vec![EventKind::Started]);
    assert_eq!(kinds(&s.on_decision(false, &odd)), vec![EventKind::Stopped]);
    assert!(!s.recording);
    assert!(s.buffer.is_empty());
}

#[test]
fn stereo_segment_reports_frames() {
    let mut s = Segmenter::new(gate(0.1, 0), 1, 2, 48000);
    let block = bits(&[0.5; 960]);
    s.on_decision(true, &block);
    s.on_decision(true, &block);
    let events = s.on_decision(false, &block);
    assert_eq!(kinds(&events), vec![EventKind::Ended, EventKind::Stopped]);
    if let AudioEvent::AudioData(p) = &events[0] {
        assert_eq!(calculate_audio_duration(p), Some(AudioDuration { frames: 960, sample_rate: 48000 }));
    } else {
        unreachable!();
    }
}

#[test]
fn idle_segmenter_ignores_quiet_blocks() {
    let mut s = segmenter(2);
    assert!(s.on_decision(false, &bits(&[0.0; 8])).is_empty());
    assert!(!s.recording);
    assert!(s.buffer.is_empty());
}
