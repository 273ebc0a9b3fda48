use opencode_discovery::batch::{collect_discovered, ProbeRecord};
use opencode_discovery::probe::ProbeOutcome;

fn record(host: &str, port: u16, outcome: ProbeOutcome) -> ProbeRecord {
    ProbeRecord { host: host.to_string(), port, outcome }
}

fn discovered(name: &str, version: Option<&str>, elapsed_ms: u64) -> ProbeOutcome {
    ProbeOutcome::Discovered {
        name: name.to_string(),
        version: version.map(|v| v.to_string()),
        elapsed_ms,
    }
}

#[test]
fn mixed_batch_keeps_exactly_the_discovered() {
    let records = vec![
        record("10.0.0.1", 3000, ProbeOutcome::Unreachable),
        record("10.0.0.2", 3000, discovered("Alpha", Some("1.0"), 12)),
        record("10.0.0.3", 3000, ProbeOutcome::RespondedNonSuccess),
        record("10.0.0.4", 3000, ProbeOutcome::RespondedMalformed),
        record("10.0.0.5", 8080, discovered("Beta", None, 7)),
    ];
    let servers = collect_discovered(&records);
    assert_eq!(servers.len(), 2);
    assert_eq!(servers[0].host.as_str(), "10.0.0.2");
    assert_eq!(servers[0].port, 3000);
    assert_eq!(servers[0].name.as_str(), "Alpha");
    assert_eq!(servers[0].version.as_deref(), Some("1.0"));
    assert_eq!(servers[0].response_time_ms, 12);
    assert_eq!(servers[1].host.as_str(), "10.0.0.5");
    assert_eq!(servers[1].port, 8080);
    assert_eq!(servers[1].name.as_str(), "Beta");
    assert_eq!(servers[1].version, None);
    assert_eq!(servers[1].response_time_ms, 7);
}

#[test]
fn all_unreachable_yields_empty_success() {
    let records = vec![
        record("192.168.1.1", 3000, ProbeOutcome::Unreachable),
        record("192.168.1.2", 3000, ProbeOutcome::Unreachable),
        record("192.168.1.3", 8080, ProbeOutcome::Unreachable),
    ];
    let servers = collect_discovered(&records);
    assert!(servers.is_empty());
}

#[test]
fn empty_round_yields_empty_batch() {
    let records: Vec<ProbeRecord> = Vec::new();
    assert!(collect_discovered(&records).is_empty());
}
