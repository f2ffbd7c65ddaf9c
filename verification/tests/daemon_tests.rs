use soundvibes::audio::AudioError;
use soundvibes::audio::AudioErrorKind;
use soundvibes::audio::SegmentInfo;
use soundvibes::audio::VadConfig;
use soundvibes::daemon::control_event_from_command;
use soundvibes::daemon::ControlEvent;
use soundvibes::daemon::Daemon;
use soundvibes::daemon::DaemonConfig;
use soundvibes::daemon::DaemonPlatform;
use soundvibes::daemon::LoadedModel;
use soundvibes::ipc::ControlResponse;
use soundvibes::ipc::DaemonEventType;
use soundvibes::model::ModelSpec;
use soundvibes::types::AudioHost;
use soundvibes::types::OutputFormat;
use soundvibes::types::OutputMode;
use soundvibes::types::VadMode;

struct TestPlatform {
    loaded_specs: Vec<(String, bool)>,
    chunks: Vec<Vec<i16>>,
    start_error: Option<AudioError>,
    responses: Vec<Result<String, String>>,
    transcribed_languages: Vec<String>,
    delivered: Vec<(String, u64, u64)>,
    lines: Vec<String>,
    capturing: bool,
}

impl TestPlatform {
    fn new(chunks: Vec<Vec<i16>>, responses: Vec<String>) -> Self {
        TestPlatform {
            loaded_specs: Vec::new(),
            chunks,
            start_error: None,
            responses: responses.into_iter().map(Ok).collect(),
            transcribed_languages: Vec::new(),
            delivered: Vec::new(),
            lines: Vec::new(),
            capturing: false,
        }
    }

    fn load_count(&self) -> usize {
        self.loaded_specs.len()
    }
}

impl DaemonPlatform for TestPlatform {
    fn load_model(&mut self, spec: &ModelSpec, allow_download: bool) -> Result<LoadedModel, String> {
        self.loaded_specs.push((spec.filename(), allow_download));
        Ok(LoadedModel {
            engine: self.loaded_specs.len() as u64,
            model_size: "small".to_string(),
            model_language: "auto".to_string(),
        })
    }

    fn start_capture(&mut self, _device: &Option<String>, _sample_rate: u32) -> Result<(), AudioError> {
        match self.start_error.take() {
            Some(err) => Err(err),
            None => {
                self.capturing = true;
                Ok(())
            }
        }
    }

    fn drain_capture(&mut self, out: &mut Vec<i16>) {
        if !self.chunks.is_empty() {
            let chunk = self.chunks.remove(0);
            out.extend(chunk);
        }
    }

    fn stop_capture(&mut self) {
        self.capturing = false;
    }

    fn transcribe(&mut self, _engine: u64, _samples: &Vec<i16>, language: &str) -> Result<String, String> {
        self.transcribed_languages.push(language.to_string());
        if self.responses.is_empty() {
            Ok(String::new())
        } else {
            self.responses.remove(0)
        }
    }

    fn deliver_transcript(&mut self, text: &str, info: SegmentInfo) {
        self.delivered
            .push((text.to_string(), info.index, info.duration_ms));
    }

    fn output_line(&mut self, line: &str) {
        self.lines.push(line.to_string());
    }
}

fn test_config(language: &str, pool: Vec<&str>) -> DaemonConfig {
    DaemonConfig {
        download_model: false,
        language: language.to_string(),
        model_pool_languages: pool.into_iter().map(|s| s.to_string()).collect(),
        device: None,
        audio_host: AudioHost::Default,
        sample_rate: 16_000,
        format: OutputFormat::Plain,
        mode: OutputMode::Stdout,
        vad: VadMode::Off,
        vad_silence_ms: 800,
        vad_threshold: 491,
        vad_chunk_ms: 250,
        debug_audio: false,
        debug_vad: false,
        dump_audio: false,
    }
}

fn vad_off() -> VadConfig {
    VadConfig::new(false, 800, 491, 250, false)
}

fn handle(
    daemon: &mut Daemon,
    platform: &mut TestPlatform,
    config: &DaemonConfig,
    event: ControlEvent,
) -> (ControlResponse, Vec<DaemonEventType>) {
    let (result, events) = daemon.handle_message(platform, config, &vad_off(), event);
    (result.expect("message should be handled"), events)
}

#[test]
fn toggle_cycle_emits_one_transcript_with_index_one() {
    let config = test_config("en", vec!["en"]);
    let mut platform = TestPlatform::new(vec![vec![200; 160]], vec!["hello".to_string()]);
    let mut daemon = Daemon::new(&config);
    daemon.preload(&mut platform, &config).expect("preload");

    let (on, events_on) = handle(
        &mut daemon,
        &mut platform,
        &config,
        ControlEvent::Toggle { language: None },
    );
    assert!(on.ok);
    assert_eq!(on.state.as_deref(), Some("recording"));
    assert_eq!(
        events_on,
        vec![DaemonEventType::RecordingStarted {
            language: "en".to_string()
        }]
    );

    let (off, events_off) = handle(
        &mut daemon,
        &mut platform,
        &config,
        ControlEvent::Toggle { language: None },
    );
    assert!(off.ok);
    assert_eq!(off.state.as_deref(), Some("idle"));
    assert_eq!(
        events_off,
        vec![
            DaemonEventType::TranscriptFinal {
                language: "en".to_string(),
                utterance: 1,
                duration_ms: 10,
                text: "hello".to_string(),
            },
            DaemonEventType::RecordingStopped {
                language: "en".to_string()
            },
        ]
    );
    assert_eq!(platform.delivered, vec![("hello".to_string(), 1, 10)]);
}

#[test]
fn bogus_command_yields_invalid_request_and_no_toggle() {
    let config = test_config("en", vec!["en"]);
    let mut platform = TestPlatform::new(Vec::new(), Vec::new());
    let mut daemon = Daemon::new(&config);
    daemon.preload(&mut platform, &config).expect("preload");

    let err = control_event_from_command("bogus").expect_err("bogus must not parse");
    let response = soundvibes::daemon::control_error_response("invalid_request", err);
    assert!(!response.ok);
    assert_eq!(response.error.as_deref(), Some("invalid_request"));

    // The message never reaches the coordinator, so the daemon stays idle.
    let (status, _) = handle(&mut daemon, &mut platform, &config, ControlEvent::Status);
    assert_eq!(status.state.as_deref(), Some("idle"));
}

#[test]
fn fresh_toggle_language_loads_model_before_recording_starts() {
    let config = test_config("en", vec!["en"]);
    let mut platform = TestPlatform::new(vec![vec![200; 160]], Vec::new());
    let mut daemon = Daemon::new(&config);
    daemon.preload(&mut platform, &config).expect("preload");
    assert_eq!(platform.load_count(), 1);

    let (on, events) = handle(
        &mut daemon,
        &mut platform,
        &config,
        ControlEvent::Toggle {
            language: Some("fr".to_string()),
        },
    );
    assert!(on.ok);
    assert_eq!(on.language.as_deref(), Some("fr"));
    assert_eq!(platform.load_count(), 2);
    assert_eq!(events.len(), 2);
    assert_eq!(
        events[0],
        DaemonEventType::ModelLoaded {
            language: "fr".to_string(),
            model_size: "small".to_string(),
            model_language: "auto".to_string(),
        }
    );
    assert_eq!(
        events[1],
        DaemonEventType::RecordingStarted {
            language: "fr".to_string()
        }
    );

    // A second toggle with the same language must not load again.
    let (_, events_off) = handle(
        &mut daemon,
        &mut platform,
        &config,
        ControlEvent::Toggle {
            language: Some("fr".to_string()),
        },
    );
    assert_eq!(platform.load_count(), 2);
    assert!(events_off
        .iter()
        .all(|e| !matches!(e, DaemonEventType::ModelLoaded { .. })));
}

#[test]
fn set_language_then_status_reports_normalized_language() {
    let config = test_config("en", vec!["en"]);
    let mut platform = TestPlatform::new(Vec::new(), Vec::new());
    let mut daemon = Daemon::new(&config);
    daemon.preload(&mut platform, &config).expect("preload");

    let (set, events) = handle(
        &mut daemon,
        &mut platform,
        &config,
        ControlEvent::SetLanguage {
            language: "  SV ".to_string(),
        },
    );
    assert!(set.ok);
    assert_eq!(set.language.as_deref(), Some("sv"));
    assert_eq!(events.len(), 1);
    assert!(matches!(
        &events[0],
        DaemonEventType::ModelLoaded { language, .. } if language == "sv"
    ));

    let (status, _) = handle(&mut daemon, &mut platform, &config, ControlEvent::Status);
    assert!(status.ok);
    assert_eq!(status.language.as_deref(), Some("sv"));
    assert_eq!(status.state.as_deref(), Some("idle"));
}

#[test]
fn set_language_with_cached_model_loads_nothing_and_succeeds() {
    let config = test_config("en", vec!["en", "fr"]);
    let mut platform = TestPlatform::new(Vec::new(), Vec::new());
    let mut daemon = Daemon::new(&config);
    daemon.preload(&mut platform, &config).expect("preload");
    assert_eq!(platform.load_count(), 2);

    let (set, events) = handle(
        &mut daemon,
        &mut platform,
        &config,
        ControlEvent::SetLanguage {
            language: "fr".to_string(),
        },
    );
    assert!(set.ok);
    assert_eq!(set.language.as_deref(), Some("fr"));
    assert!(events.is_empty());
    assert_eq!(platform.load_count(), 2);
}

#[test]
fn stop_while_recording_still_finalizes_the_utterance() {
    let config = test_config("en", vec!["en"]);
    let mut platform = TestPlatform::new(vec![vec![200; 160]], vec!["hello".to_string()]);
    let mut daemon = Daemon::new(&config);
    daemon.preload(&mut platform, &config).expect("preload");

    let (_, _) = handle(
        &mut daemon,
        &mut platform,
        &config,
        ControlEvent::Toggle { language: None },
    );
    let (stop, stop_events) = handle(&mut daemon, &mut platform, &config, ControlEvent::Stop);
    assert!(stop.ok);
    assert_eq!(stop.state.as_deref(), Some("recording"));
    assert!(stop_events.is_empty());
    assert!(daemon.shutdown);

    let (result, flush_events) = daemon.flush_shutdown(&mut platform, &config, &vad_off());
    result.expect("flush should succeed");
    assert_eq!(flush_events.len(), 2);
    assert!(matches!(
        &flush_events[0],
        DaemonEventType::TranscriptFinal { text, utterance: 1, .. } if text == "hello"
    ));
    assert!(matches!(
        &flush_events[1],
        DaemonEventType::RecordingStopped { .. }
    ));
    assert!(!daemon.recording);
}

#[test]
fn model_pool_preloads_active_and_configured_languages() {
    let config = test_config("sv", vec!["en", "fr"]);
    let mut platform = TestPlatform::new(Vec::new(), Vec::new());
    let mut daemon = Daemon::new(&config);
    daemon.preload(&mut platform, &config).expect("preload");

    assert!(daemon.pool.transcriber_for("en").is_some());
    assert!(daemon.pool.transcriber_for("fr").is_some());
    assert!(daemon.pool.transcriber_for("sv").is_some());
    assert_eq!(platform.load_count(), 3);
}

#[test]
fn failed_capture_start_surfaces_as_error_response() {
    let config = test_config("en", vec!["en"]);
    let mut platform = TestPlatform::new(Vec::new(), Vec::new());
    platform.start_error = Some(AudioError::new(
        AudioErrorKind::DeviceUnavailable,
        "no input devices available".to_string(),
    ));
    let mut daemon = Daemon::new(&config);
    daemon.preload(&mut platform, &config).expect("preload");

    let (resp, _) = handle(
        &mut daemon,
        &mut platform,
        &config,
        ControlEvent::Toggle { language: None },
    );
    assert!(!resp.ok);
    assert_eq!(resp.error.as_deref(), Some("audio_error"));
    assert!(!daemon.recording);
}

#[test]
fn failed_transcription_aborts_utterance_and_returns_to_idle() {
    let config = test_config("en", vec!["en"]);
    let mut platform = TestPlatform::new(vec![vec![200; 160]], Vec::new());
    platform.responses = vec![Err("engine breakdown".to_string())];
    let mut daemon = Daemon::new(&config);
    daemon.preload(&mut platform, &config).expect("preload");

    let (_, _) = handle(
        &mut daemon,
        &mut platform,
        &config,
        ControlEvent::Toggle { language: None },
    );
    let (off, events) = handle(
        &mut daemon,
        &mut platform,
        &config,
        ControlEvent::Toggle { language: None },
    );
    assert!(off.ok);
    assert_eq!(off.state.as_deref(), Some("idle"));
    assert_eq!(events.len(), 2);
    assert!(matches!(
        &events[0],
        DaemonEventType::Error { message } if message == "engine breakdown"
    ));
    assert!(matches!(&events[1], DaemonEventType::RecordingStopped { .. }));
    assert!(!daemon.recording);

    // The aborted utterance still consumed an index.
    assert_eq!(daemon.utterance_index, 1);
}

#[test]
fn silent_recording_emits_no_transcript() {
    let config = test_config("en", vec!["en"]);
    // All-zero samples with VAD enabled trim to nothing.
    let mut platform = TestPlatform::new(vec![vec![0; 16_000]], Vec::new());
    let mut daemon = Daemon::new(&config);
    daemon.preload(&mut platform, &config).expect("preload");

    let vad = VadConfig::new(true, 800, 491, 250, false);
    let (_, _) = daemon.handle_message(
        &mut platform,
        &config,
        &vad,
        ControlEvent::Toggle { language: None },
    );
    let (result, events) = daemon.handle_message(
        &mut platform,
        &config,
        &vad,
        ControlEvent::Toggle { language: None },
    );
    let (resp, _) = (result.expect("toggle off"), ());
    assert!(resp.ok);
    assert_eq!(
        events,
        vec![DaemonEventType::RecordingStopped {
            language: "en".to_string()
        }]
    );
    assert_eq!(daemon.utterance_index, 0);
}

#[test]
fn transcription_uses_switched_language() {
    let config = test_config("en", vec!["en", "fr"]);
    let mut platform = TestPlatform::new(vec![vec![200; 160]], vec!["bonjour".to_string()]);
    let mut daemon = Daemon::new(&config);
    daemon.preload(&mut platform, &config).expect("preload");
    assert_eq!(platform.load_count(), 2);

    let (_, _) = handle(
        &mut daemon,
        &mut platform,
        &config,
        ControlEvent::SetLanguage {
            language: "fr".to_string(),
        },
    );
    let (_, _) = handle(
        &mut daemon,
        &mut platform,
        &config,
        ControlEvent::Toggle { language: None },
    );
    let (_, _) = handle(
        &mut daemon,
        &mut platform,
        &config,
        ControlEvent::Toggle { language: None },
    );
    assert_eq!(platform.load_count(), 2);
    assert_eq!(platform.transcribed_languages, vec!["fr".to_string()]);
}
