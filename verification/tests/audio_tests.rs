use soundvibes::audio::duration_to_samples;
use soundvibes::audio::samples_to_ms;
use soundvibes::audio::sample_format_rank;
use soundvibes::audio::select_input_device;
use soundvibes::audio::select_stream_config;
use soundvibes::audio::trim_trailing_silence;
use soundvibes::audio::SampleFormatKind;
use soundvibes::audio::StreamCandidate;
use soundvibes::audio::VadConfig;
use soundvibes::capture::merge_overflow;
use soundvibes::capture::new_sample_ring;
use soundvibes::capture::drain_ring;
use soundvibes::capture::push_samples;
use soundvibes::capture::ring_pop;
use soundvibes::error::AppError;
use soundvibes::events::EventBus;
use soundvibes::ipc::DaemonEvent;
use soundvibes::ipc::DaemonEventType;
use soundvibes::model::model_language_for_transcription;
use soundvibes::model::ModelLanguage;
use soundvibes::model::ModelSize;
use soundvibes::model::ModelSpec;
use soundvibes::output::jsonl_transcript_line;
use soundvibes::output::missing_graphical_session;
use soundvibes::output::plain_transcript_line;
use soundvibes::audio::SegmentInfo;
use soundvibes::text::json_escape;
use soundvibes::text::normalize_language;
use soundvibes::text::u64_to_string;

#[test]
fn detects_missing_graphical_session_errors() {
    let errors = vec![
        "wayland session not detected".to_string(),
        "x11 session not detected".to_string(),
    ];
    assert!(missing_graphical_session(&errors));
}

#[test]
fn one_missing_session_is_not_a_missing_graphical_session() {
    let errors = vec!["wayland session not detected".to_string()];
    assert!(!missing_graphical_session(&errors));
}

#[test]
fn at01b_language_selects_model_variant() {
    let english = model_language_for_transcription("en");
    let auto = model_language_for_transcription("auto");
    let other = model_language_for_transcription("es");

    assert_eq!(english, ModelLanguage::En);
    assert_eq!(auto, ModelLanguage::Auto);
    assert_eq!(other, ModelLanguage::Auto);

    let english_spec = ModelSpec::new(ModelSize::Small, english);
    let auto_spec = ModelSpec::new(ModelSize::Small, auto);

    assert!(english_spec.filename().contains(".en."));
    assert!(!auto_spec.filename().contains(".en."));
}

#[test]
fn model_filenames_are_exact() {
    assert_eq!(
        ModelSpec::new(ModelSize::Auto, ModelLanguage::En).filename(),
        "ggml-small.en.bin"
    );
    assert_eq!(
        ModelSpec::new(ModelSize::Tiny, ModelLanguage::Auto).filename(),
        "ggml-tiny.bin"
    );
}

#[test]
fn trim_returns_input_unchanged_when_vad_disabled() {
    let samples: Vec<i16> = vec![0, 0, 5, 0, 0, 0];
    let vad = VadConfig::new(false, 800, 491, 250, false);
    let trimmed = trim_trailing_silence(&samples, 16_000, &vad);
    assert_eq!(trimmed, samples);
}

#[test]
fn trim_is_idempotent_on_a_trimmed_buffer() {
    // 16000 Hz, 250 ms chunks: 4000 samples per chunk. Two loud chunks
    // followed by eight silent ones; the silent tail is removed and a second
    // trim changes nothing because the kept buffer ends in a loud chunk.
    let mut samples: Vec<i16> = vec![8_000; 8_000];
    samples.extend(std::iter::repeat(0).take(32_000));
    let vad = VadConfig::new(true, 10_000, 491, 250, false);
    let trimmed = trim_trailing_silence(&samples, 16_000, &vad);
    assert_eq!(trimmed.len(), 8_000);
    let again = trim_trailing_silence(&trimmed, 16_000, &vad);
    assert_eq!(again, trimmed);
}

#[test]
fn trim_stops_at_silence_budget() {
    // All silence: with an 800 ms budget and 250 ms chunks the walk removes
    // four chunks (1000 ms >= 800 ms) and keeps the rest.
    let samples: Vec<i16> = vec![0; 16_000 * 2];
    let vad = VadConfig::new(true, 800, 491, 250, false);
    let trimmed = trim_trailing_silence(&samples, 16_000, &vad);
    assert_eq!(trimmed.len(), 16_000 * 2 - 4 * 4_000);
}

#[test]
fn duration_arithmetic_is_exact() {
    assert_eq!(samples_to_ms(16_000, 16_000), 1_000);
    assert_eq!(samples_to_ms(160, 16_000), 10);
    assert_eq!(samples_to_ms(0, 16_000), 0);
    assert_eq!(samples_to_ms(100, 0), 0);
    // 24 samples at 16 kHz are 1.5 ms; rounding is half-up.
    assert_eq!(samples_to_ms(24, 16_000), 2);
    assert_eq!(duration_to_samples(16_000, 250), 4_000);
    assert_eq!(duration_to_samples(16_000, 0), 0);
    // 1 ms at 44100 Hz is 44.1 samples, rounded to 44.
    assert_eq!(duration_to_samples(44_100, 1), 44);
}

#[test]
fn stream_config_prefers_precision_then_mono() {
    let cands = vec![
        StreamCandidate { min_rate: 8_000, max_rate: 48_000, channels: 2, format: SampleFormatKind::I16 },
        StreamCandidate { min_rate: 8_000, max_rate: 48_000, channels: 2, format: SampleFormatKind::F32 },
        StreamCandidate { min_rate: 8_000, max_rate: 48_000, channels: 1, format: SampleFormatKind::F32 },
        StreamCandidate { min_rate: 96_000, max_rate: 192_000, channels: 1, format: SampleFormatKind::F32 },
    ];
    assert_eq!(select_stream_config(&cands, 16_000), Some(2));
    assert_eq!(select_stream_config(&cands, 96_000), Some(3));
    assert_eq!(select_stream_config(&cands, 7_000), None);
    assert_eq!(sample_format_rank(SampleFormatKind::F32), 6);
    assert_eq!(sample_format_rank(SampleFormatKind::U8), 0);
}

#[test]
fn device_selection_matches_case_insensitively() {
    let names = vec!["USB Mic".to_string(), "Webcam".to_string()];
    assert_eq!(select_input_device(&names, "usb mic"), Some(0));
    assert_eq!(select_input_device(&names, "WEBCAM"), Some(1));
    assert_eq!(select_input_device(&names, "missing"), None);
}

#[test]
fn event_fanout_broadcasts_identical_lines_in_order() {
    let mut bus = EventBus::new();
    bus.subscribe(1);
    bus.subscribe(2);

    let first = DaemonEvent::new("2026-02-06T10:00:01Z", DaemonEventType::DaemonReady);
    let line1 = EventBus::serialize_event(&first);
    bus.deliver(&line1, &vec![true, true]);

    let second = DaemonEvent::new(
        "2026-02-06T10:00:02Z",
        DaemonEventType::RecordingStarted { language: "fr".to_string() },
    );
    let line2 = EventBus::serialize_event(&second);
    // The first subscriber disconnected; its write fails, the other's does not.
    bus.deliver(&line2, &vec![false, true]);

    assert_eq!(bus.len(), 1);
    assert_eq!(bus.subscribers[0].id, 2);
    assert_eq!(bus.subscribers[0].received, vec![line1.clone(), line2.clone()]);
    assert!(line1.ends_with('\n'));
    assert!(line2.ends_with('\n'));
}

#[test]
fn sample_ring_round_trips_in_order() {
    let (mut producer, mut consumer) = new_sample_ring(4);
    let mut scratch: Vec<i16> = Vec::new();
    // Six samples into a ring of four: two spill to the overflow scratch.
    let force = push_samples(&mut producer, &mut scratch, false, &vec![1, 2, 3, 4, 5, 6]);
    assert!(force);
    assert_eq!(scratch, vec![5, 6]);

    let mut out: Vec<i16> = vec![0];
    drain_ring(&mut consumer, &mut out, 100);
    assert_eq!(out, vec![0, 1, 2, 3, 4]);
    assert_eq!(ring_pop(&mut consumer), None);

    let merged = merge_overflow(&mut scratch, &mut out);
    assert_eq!(merged, 2);
    assert!(scratch.is_empty());
    assert_eq!(out, vec![0, 1, 2, 3, 4, 5, 6]);
}

#[test]
fn ring_capacity_covers_thirty_seconds() {
    assert_eq!(soundvibes::capture::ring_capacity_for(16_000), 480_000);
    assert_eq!(soundvibes::capture::ring_capacity_for(48_000), 1_440_000);
    // Degenerate rates still get a usable one-second floor.
    assert_eq!(soundvibes::capture::ring_capacity_for(0), 16_000);
    assert_eq!(soundvibes::capture::ring_capacity_for(100), 16_000);
}

#[test]
fn overflow_mode_sends_everything_to_scratch() {
    let (mut producer, _consumer) = new_sample_ring(8);
    let mut scratch: Vec<i16> = Vec::new();
    let force = push_samples(&mut producer, &mut scratch, true, &vec![7, 8]);
    assert!(force);
    assert_eq!(scratch, vec![7, 8]);
}

#[test]
fn transcript_lines_are_exact() {
    let info = SegmentInfo { index: 1, duration_ms: 1_200 };
    assert_eq!(plain_transcript_line("hello", info), "Transcript 1: hello");
    assert_eq!(
        jsonl_transcript_line("he\"llo", info, "2026-02-06T10:00:00Z"),
        "{\"type\":\"final\",\"utterance\":1,\"duration_ms\":1200,\"timestamp\":\"2026-02-06T10:00:00Z\",\"text\":\"he\\\"llo\"}"
    );
}

#[test]
fn text_helpers_are_exact() {
    assert_eq!(normalize_language("  Fr "), "fr");
    assert_eq!(normalize_language("EN"), "en");
    assert_eq!(normalize_language("   "), "");
    assert_eq!(u64_to_string(0), "0");
    assert_eq!(u64_to_string(18_446_744_073_709_551_615), "18446744073709551615");
    assert_eq!(json_escape("a\\b\"c\nd\re\tf"), "a\\\\b\\\"c\\nd\\re\\tf");
}

#[test]
fn app_error_exit_codes() {
    assert_eq!(AppError::config("bad".to_string()).exit_code(), 2);
    assert_eq!(AppError::audio("bad".to_string()).exit_code(), 3);
    assert_eq!(AppError::runtime("bad".to_string()).exit_code(), 1);
}

#[test]
fn timestamps_are_stamped_on_events() {
    let event = soundvibes::time::stamp_event(DaemonEventType::DaemonReady);
    assert_eq!(event.api_version, "1");
    assert!(!event.timestamp.is_empty());
    assert!(event.timestamp.contains('T'));
}
