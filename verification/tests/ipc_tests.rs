use soundvibes::daemon::control_event_from_command;
use soundvibes::daemon::ControlEvent;
use soundvibes::ipc::parse_control_request;
use soundvibes::ipc::parse_control_response;
use soundvibes::ipc::ControlCommand;
use soundvibes::ipc::ControlRequest;
use soundvibes::ipc::ControlResponse;
use soundvibes::ipc::DaemonEvent;
use soundvibes::ipc::DaemonEventType;

#[test]
fn parses_toggle_request_command() {
    let event = control_event_from_command("toggle lang=sv").expect("expected parse success");
    assert_eq!(
        event,
        ControlEvent::Toggle {
            language: Some("sv".to_string())
        }
    );
}

#[test]
fn rejects_toggle_request_command_with_unknown_token() {
    let err = control_event_from_command("toggle foo=bar").expect_err("expected parse error");
    assert!(err.contains("unexpected token"));
}

#[test]
fn parses_control_response_json_line() {
    let line = "{\"api_version\":\"1\",\"ok\":true,\"state\":\"idle\",\"language\":\"en\"}\n";
    let response = parse_control_response(line).expect("response should parse");

    assert!(response.ok);
    assert_eq!(response.state.as_deref(), Some("idle"));
    assert_eq!(response.language.as_deref(), Some("en"));
}

#[test]
fn control_request_json_round_trip_includes_api_version() {
    let request = ControlRequest::new(ControlCommand::toggle(Some("fr".to_string())));

    let line = request.to_json_line();
    assert!(line.ends_with('\n'));
    assert!(line.contains("\"api_version\":\"1\""));

    let parsed = ControlRequest::from_json_line(&line).expect("request should parse");
    assert_eq!(parsed, request);
}

#[test]
fn daemon_event_json_round_trip_includes_api_version() {
    let event = DaemonEvent::new(
        "2026-02-05T12:01:12Z",
        DaemonEventType::TranscriptFinal {
            language: "fr".to_string(),
            utterance: 1,
            duration_ms: 1_200,
            text: "bonjour".to_string(),
        },
    );

    let line = event.to_json_line();
    assert!(line.ends_with('\n'));
    assert!(line.contains("\"api_version\":\"1\""));

    let parsed = DaemonEvent::from_json_line(&line).expect("event should parse");
    assert_eq!(parsed, event);
}

#[test]
fn parses_plain_commands() {
    let status = parse_control_request("status").expect("status should parse");
    assert_eq!(status.command, ControlCommand::Status);

    let stop = parse_control_request("  stop  ").expect("stop should parse");
    assert_eq!(stop.command, ControlCommand::Stop);

    let toggle = parse_control_request("toggle").expect("toggle should parse");
    assert_eq!(toggle.command, ControlCommand::Toggle { lang: None });

    let empty = parse_control_request("").expect("an empty line is a plain toggle");
    assert_eq!(empty.command, ControlCommand::Toggle { lang: None });

    let set = parse_control_request("set-language lang=SV").expect("set-language should parse");
    assert_eq!(
        set.command,
        ControlCommand::SetLanguage {
            lang: "SV".to_string()
        }
    );
}

#[test]
fn rejects_malformed_commands() {
    let err = parse_control_request("bogus").expect_err("unknown command should fail");
    assert_eq!(err, "unsupported daemon command: bogus");

    let err = parse_control_request("set-language").expect_err("missing lang should fail");
    assert_eq!(err, "missing lang=<CODE>");

    let err = parse_control_request("toggle lang=").expect_err("empty lang should fail");
    assert_eq!(err, "lang value cannot be empty");

    let err =
        parse_control_request("toggle lang=a lang=b").expect_err("duplicate lang should fail");
    assert_eq!(err, "duplicate lang token");

    let err = parse_control_request("status extra").expect_err("extra token should fail");
    assert_eq!(err, "unexpected token 'extra' for status");

    let err = parse_control_request("stop now").expect_err("extra token should fail");
    assert_eq!(err, "unexpected token 'now' for stop");
}

#[test]
fn ascii_whitespace_separates_tokens() {
    let request =
        parse_control_request("toggle\u{000B}lang=sv").expect("vertical tab separates tokens");
    assert_eq!(
        request.command,
        ControlCommand::Toggle {
            lang: Some("sv".to_string())
        }
    );
    assert_eq!(
        soundvibes::text::normalize_language("\u{000B}FR\u{000C}"),
        "fr"
    );
}

#[test]
fn response_round_trip_with_escapes() {
    let response = ControlResponse::error("invalid_request", "say \"hi\"\n\t\\done".to_string());
    let line = response.to_json_line();
    assert!(line.ends_with('\n'));
    let parsed = ControlResponse::from_json_line(&line).expect("response should parse");
    assert_eq!(parsed, response);
    assert_eq!(parsed.error.as_deref(), Some("invalid_request"));
    assert_eq!(parsed.message.as_deref(), Some("say \"hi\"\n\t\\done"));
}

#[test]
fn response_ok_line_has_exact_bytes() {
    let response = ControlResponse::ok(Some("recording".to_string()), Some("fr".to_string()));
    let line = response.to_json_line();
    assert_eq!(
        line,
        "{\"api_version\":\"1\",\"ok\":true,\"state\":\"recording\",\"language\":\"fr\"}\n"
    );
}

#[test]
fn event_lines_have_exact_bytes() {
    let ready = DaemonEvent::new("2026-02-06T10:00:00Z", DaemonEventType::DaemonReady);
    assert_eq!(
        ready.to_json_line(),
        "{\"api_version\":\"1\",\"timestamp\":\"2026-02-06T10:00:00Z\",\"type\":\"daemon_ready\"}\n"
    );

    let transcript = DaemonEvent::new(
        "2026-02-06T10:00:01Z",
        DaemonEventType::TranscriptFinal {
            language: "en".to_string(),
            utterance: 3,
            duration_ms: 250,
            text: "hello".to_string(),
        },
    );
    assert_eq!(
        transcript.to_json_line(),
        "{\"api_version\":\"1\",\"timestamp\":\"2026-02-06T10:00:01Z\",\"type\":\"transcript_final\",\"language\":\"en\",\"utterance\":3,\"duration_ms\":250,\"text\":\"hello\"}\n"
    );
}

#[test]
fn rejects_malformed_json_lines() {
    assert!(parse_control_response("not json").is_err());
    assert!(parse_control_response("{\"ok\":true").is_err());
    assert!(parse_control_response("{\"state\":\"idle\"}").is_err());
    assert!(parse_control_response("{\"ok\":\"yes\"}").is_err());
    assert!(ControlRequest::from_json_line("{\"command\":\"fly\"}").is_err());
    assert!(DaemonEvent::from_json_line("{\"type\":\"daemon_ready\"}").is_err());
}

#[test]
fn every_event_variant_round_trips() {
    let events = vec![
        DaemonEventType::DaemonReady,
        DaemonEventType::RecordingStarted {
            language: "en".to_string(),
        },
        DaemonEventType::RecordingStopped {
            language: "sv".to_string(),
        },
        DaemonEventType::TranscriptFinal {
            language: "fr".to_string(),
            utterance: 18_446_744_073_709_551_615,
            duration_ms: 0,
            text: "tabs\tand \"quotes\"".to_string(),
        },
        DaemonEventType::ModelLoaded {
            language: "de".to_string(),
            model_size: "small".to_string(),
            model_language: "auto".to_string(),
        },
        DaemonEventType::Error {
            message: "backslash \\ newline \n".to_string(),
        },
    ];
    for event_type in events {
        let event = DaemonEvent::new("2026-02-06T10:00:00Z", event_type);
        let parsed = DaemonEvent::from_json_line(&event.to_json_line()).expect("event parses");
        assert_eq!(parsed, event);
    }
}

#[test]
fn every_command_variant_round_trips() {
    let commands = vec![
        ControlCommand::Toggle { lang: None },
        ControlCommand::Toggle {
            lang: Some("sv".to_string()),
        },
        ControlCommand::Status,
        ControlCommand::SetLanguage {
            lang: "fr".to_string(),
        },
        ControlCommand::Stop,
    ];
    for command in commands {
        let request = ControlRequest::new(command);
        let parsed =
            ControlRequest::from_json_line(&request.to_json_line()).expect("request parses");
        assert_eq!(parsed, request);
    }
}

#[test]
fn parses_response_with_whitespace_and_defaults() {
    let response =
        parse_control_response(" { \"ok\" : false , \"error\" : \"timeout\" } ").expect("parse");
    assert_eq!(response.api_version, "1");
    assert!(!response.ok);
    assert_eq!(response.error.as_deref(), Some("timeout"));
    assert_eq!(response.state, None);
}
