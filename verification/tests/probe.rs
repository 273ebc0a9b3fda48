use opencode_discovery::probe::{
    classify_probe, default_server_name, status_is_success, ProbeOutcome, TransportReply,
    DEFAULT_PROBE_TIMEOUT_MS,
};

fn responded(status: u16, body: &str) -> TransportReply {
    TransportReply::Responded { status, body: body.to_string() }
}

#[test]
fn success_range_is_2xx() {
    assert!(status_is_success(200));
    assert!(status_is_success(204));
    assert!(status_is_success(299));
    assert!(!status_is_success(199));
    assert!(!status_is_success(300));
    assert!(!status_is_success(404));
    assert!(!status_is_success(500));
}

#[test]
fn transport_failure_is_unreachable() {
    assert!(matches!(classify_probe(TransportReply::Failed, 0), ProbeOutcome::Unreachable));
    assert!(matches!(classify_probe(TransportReply::Failed, 1999), ProbeOutcome::Unreachable));
}

#[test]
fn classification_is_deterministic() {
    for _ in 0..3 {
        let outcome = classify_probe(responded(200, "{\"name\":\"A\"}"), 10);
        match outcome {
            ProbeOutcome::Discovered { name, .. } => assert_eq!(name.as_str(), "A"),
            _ => panic!("expected Discovered"),
        }
    }
    for _ in 0..3 {
        assert!(matches!(
            classify_probe(responded(503, "{\"name\":\"A\"}"), 10),
            ProbeOutcome::RespondedNonSuccess
        ));
    }
}

#[test]
fn non_success_status_wins_over_body() {
    assert!(matches!(
        classify_probe(responded(404, "{\"name\":\"TestSrv\"}"), 5),
        ProbeOutcome::RespondedNonSuccess
    ));
    assert!(matches!(classify_probe(responded(500, "not json"), 5), ProbeOutcome::RespondedNonSuccess));
}

#[test]
fn malformed_body_is_rejected() {
    assert!(matches!(
        classify_probe(responded(200, "plain text"), 5),
        ProbeOutcome::RespondedMalformed
    ));
    // Valid JSON whose top level is not an object is not structured
    // key-value data either.
    assert!(matches!(classify_probe(responded(200, "[1,2,3]"), 5), ProbeOutcome::RespondedMalformed));
    assert!(matches!(classify_probe(responded(200, "\"text\""), 5), ProbeOutcome::RespondedMalformed));
    assert!(matches!(classify_probe(responded(200, ""), 5), ProbeOutcome::RespondedMalformed));
}

#[test]
fn empty_object_gets_default_name() {
    let outcome = classify_probe(responded(200, "{}"), 17);
    match outcome {
        ProbeOutcome::Discovered { name, version, elapsed_ms } => {
            assert_eq!(name.as_str(), "OpenCode Server");
            assert_eq!(name, default_server_name());
            assert!(version.is_none());
            assert_eq!(elapsed_ms, 17);
        },
        _ => panic!("expected Discovered"),
    }
}

#[test]
fn named_server_is_discovered_with_metadata() {
    let outcome = classify_probe(responded(200, "{\"name\":\"TestSrv\",\"version\":\"1.2\"}"), 42);
    match outcome {
        ProbeOutcome::Discovered { name, version, elapsed_ms } => {
            assert_eq!(name.as_str(), "TestSrv");
            assert_eq!(version.as_deref(), Some("1.2"));
            assert_eq!(elapsed_ms, 42);
            assert!(elapsed_ms <= DEFAULT_PROBE_TIMEOUT_MS);
        },
        _ => panic!("expected Discovered"),
    }
}

#[test]
fn non_string_fields_are_treated_as_absent() {
    let outcome = classify_probe(responded(200, "{\"name\":5,\"version\":true}"), 3);
    match outcome {
        ProbeOutcome::Discovered { name, version, .. } => {
            assert_eq!(name.as_str(), "OpenCode Server");
            assert!(version.is_none());
        },
        _ => panic!("expected Discovered"),
    }
}
