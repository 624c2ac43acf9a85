use nostcat::orchestrator::consume_step;
use nostcat::orchestrator::diagnostic_line;
use nostcat::orchestrator::drain;
use nostcat::session::listen_script;
use nostcat::session::session_script;
use nostcat::session::Emission;
use nostcat::session::FailureKind;
use nostcat::session::ReadEvent;
use nostcat::session::SessionEvent;
use nostcat::session::SessionOutcome;
use nostcat::Config;

fn success(endpoint: &str, payload: &str) -> SessionOutcome {
    SessionOutcome::Success { endpoint: endpoint.to_string(), payload: payload.to_string() }
}

fn failure(endpoint: &str, kind: FailureKind) -> SessionOutcome {
    SessionOutcome::Failure { endpoint: endpoint.to_string(), kind }
}

#[test]
fn dedup_keeps_first_appearance_only() {
    // Two endpoints each emit the same payload: with dedup on, it appears
    // exactly once, where it was first seen.
    let outcomes = vec![
        success("wss://a.example", "X"),
        success("wss://b.example", "X"),
    ];
    let (output, errors) = drain(outcomes, true);
    assert_eq!(output, vec!["X".to_string()]);
    assert!(errors.is_empty());
}

#[test]
fn dedup_preserves_first_seen_order() {
    let outcomes = vec![
        success("wss://a.example", "X"),
        success("wss://b.example", "Y"),
        success("wss://b.example", "X"),
        success("wss://a.example", "Z"),
        success("wss://a.example", "Y"),
    ];
    let (output, _) = drain(outcomes, true);
    assert_eq!(output, vec!["X".to_string(), "Y".to_string(), "Z".to_string()]);
}

#[test]
fn without_dedup_duplicates_both_appear() {
    let outcomes = vec![
        success("wss://a.example", "X"),
        success("wss://b.example", "X"),
    ];
    let (output, errors) = drain(outcomes, false);
    assert_eq!(output, vec!["X".to_string(), "X".to_string()]);
    assert!(errors.is_empty());
}

#[test]
fn failures_become_diagnostics_not_output() {
    let outcomes = vec![
        failure("wss://a.example", FailureKind::ConnectError),
        success("wss://b.example", "X"),
        failure("wss://b.example", FailureKind::TimeoutError),
    ];
    let (output, errors) = drain(outcomes, false);
    assert_eq!(output, vec!["X".to_string()]);
    assert_eq!(
        errors,
        vec![
            "unable to connect to websocket server -- wss://a.example".to_string(),
            "connection timed out while waiting for a response -- wss://b.example".to_string(),
        ]
    );
}

#[test]
fn diagnostic_lines_name_the_endpoint() {
    let endpoint = "wss://relay.example".to_string();
    assert_eq!(
        diagnostic_line(&endpoint, FailureKind::UrlParseError),
        "unable to parse websocket url -- wss://relay.example"
    );
    assert_eq!(
        diagnostic_line(&endpoint, FailureKind::ConnectError),
        "unable to connect to websocket server -- wss://relay.example"
    );
    assert_eq!(
        diagnostic_line(&endpoint, FailureKind::WriteError),
        "failed to write to websocket -- wss://relay.example"
    );
    assert_eq!(
        diagnostic_line(&endpoint, FailureKind::TransportError),
        "websocket read error -- wss://relay.example"
    );
    assert_eq!(
        diagnostic_line(&endpoint, FailureKind::TimeoutError),
        "connection timed out while waiting for a response -- wss://relay.example"
    );
    assert_eq!(
        diagnostic_line(&endpoint, FailureKind::UnsupportedFrame),
        "received non-text websocket data -- wss://relay.example"
    );
    assert_eq!(
        diagnostic_line(&endpoint, FailureKind::UnsupportedEnvelope),
        "received unsupported data -- wss://relay.example"
    );
}

#[test]
fn consume_step_records_only_under_dedup() {
    let mut seen: Vec<String> = Vec::new();
    let payload = "X".to_string();
    assert!(consume_step(&mut seen, &payload, false));
    assert!(seen.is_empty());
    assert!(consume_step(&mut seen, &payload, true));
    assert_eq!(seen, vec!["X".to_string()]);
    assert!(!consume_step(&mut seen, &payload, true));
    assert_eq!(seen, vec!["X".to_string()]);
}

#[test]
fn two_endpoints_one_failing() {
    // Endpoints A and B; A answers the request with one event and then the
    // end of its backlog; B never connects. The event is printed, B's
    // failure becomes one diagnostic naming it, and A's success is
    // unaffected.
    let config = Config { connect_timeout: 10000, stream: false, omit_eose: true };
    let event_line = r#"["EVENT","sub1",{"id":"e1"}]"#;

    let a_events = vec![
        SessionEvent::ConnectSucceeded,
        SessionEvent::WriteSucceeded,
        SessionEvent::Frame(ReadEvent::Text(event_line.to_string())),
        SessionEvent::Frame(ReadEvent::Text(r#"["EOSE","sub1"]"#.to_string())),
        SessionEvent::CloseAttempted,
    ];
    let (a_out, _) = session_script(a_events, &config, 1);

    let b_events = vec![SessionEvent::ConnectFailed];
    let (b_out, _) = session_script(b_events, &config, 1);

    let mut outcomes: Vec<SessionOutcome> = Vec::new();
    for e in a_out {
        outcomes.push(tag("wss://a.example", e));
    }
    for e in b_out {
        outcomes.push(tag("wss://b.example", e));
    }

    let (output, errors) = drain(outcomes, false);
    assert_eq!(output, vec![event_line.to_string()]);
    assert_eq!(errors.len(), 1);
    assert!(errors[0].contains("unable to connect"));
    assert!(errors[0].contains("wss://b.example"));
}

#[test]
fn notice_is_printed_then_connection_closes() {
    // One endpoint, streaming disabled, one notice: it is printed exactly
    // once and nothing is read after it.
    let config = Config { connect_timeout: 10000, stream: false, omit_eose: true };
    let notice_line = r#"["NOTICE","rate limited"]"#;
    let frames = vec![
        ReadEvent::Text(notice_line.to_string()),
        ReadEvent::Text(r#"["EVENT","late"]"#.to_string()),
    ];
    let (out, consumed, closed) = listen_script(frames, &config);
    assert_eq!(consumed, 1);
    assert!(closed);

    let outcomes: Vec<SessionOutcome> =
        out.into_iter().map(|e| tag("wss://a.example", e)).collect();
    let (output, errors) = drain(outcomes, false);
    assert_eq!(output, vec![notice_line.to_string()]);
    assert!(errors.is_empty());
}

fn tag(endpoint: &str, e: Emission) -> SessionOutcome {
    match e {
        Emission::Success(payload) => SessionOutcome::Success {
            endpoint: endpoint.to_string(),
            payload,
        },
        Emission::Failure(kind) => SessionOutcome::Failure {
            endpoint: endpoint.to_string(),
            kind,
        },
    }
}
