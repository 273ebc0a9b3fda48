use opencode_discovery::endpoint::{
    default_candidates, default_ports, default_prefixes, dec_u16, enumerate_candidates, host_of,
    probe_url, DEFAULT_HOST_INDEX_HI, DEFAULT_HOST_INDEX_LO,
};
use std::collections::HashSet;

#[test]
fn dec_renders_decimal() {
    assert_eq!(dec_u16(0).as_str(), "0");
    assert_eq!(dec_u16(7).as_str(), "7");
    assert_eq!(dec_u16(10).as_str(), "10");
    assert_eq!(dec_u16(255).as_str(), "255");
    assert_eq!(dec_u16(3000).as_str(), "3000");
    assert_eq!(dec_u16(65535).as_str(), "65535");
}

#[test]
fn host_is_prefix_dot_index() {
    assert_eq!(host_of("192.168.1", 5).as_str(), "192.168.1.5");
    assert_eq!(host_of("10.0.0", 20).as_str(), "10.0.0.20");
}

#[test]
fn url_has_fixed_shape() {
    assert_eq!(probe_url("10.0.0.2", 3000).as_str(), "http://10.0.0.2:3000/app");
    assert_eq!(probe_url("192.168.1.1", 8080).as_str(), "http://192.168.1.1:8080/app");
}

#[test]
fn enumeration_single_prefix_single_port() {
    let prefixes = vec!["10.0.0".to_string()];
    let ports = vec![3000u16];
    let cands = enumerate_candidates(&prefixes, &ports, 1, 3);
    assert_eq!(cands.len(), 3);
    assert_eq!(cands[0].host.as_str(), "10.0.0.1");
    assert_eq!(cands[1].host.as_str(), "10.0.0.2");
    assert_eq!(cands[2].host.as_str(), "10.0.0.3");
    assert!(cands.iter().all(|c| c.port == 3000));
}

#[test]
fn enumeration_is_full_cartesian_product() {
    let prefixes = vec!["192.168.1".to_string(), "10.0.0".to_string()];
    let ports = vec![3000u16, 8080, 8000];
    let cands = enumerate_candidates(&prefixes, &ports, 5, 9);
    assert_eq!(cands.len(), 2 * 3 * 5);
    let mut pairs: HashSet<(String, u16)> = HashSet::new();
    for c in &cands {
        pairs.insert((c.host.clone(), c.port));
    }
    assert_eq!(pairs.len(), 2 * 3 * 5);
    assert!(pairs.contains(&("192.168.1.5".to_string(), 3000)));
    assert!(pairs.contains(&("10.0.0.9".to_string(), 8000)));
    // Grouped by prefix, then port, then ascending host index.
    assert_eq!(cands[0].host.as_str(), "192.168.1.5");
    assert_eq!(cands[0].port, 3000);
    assert_eq!(cands[4].host.as_str(), "192.168.1.9");
    assert_eq!(cands[5].port, 8080);
    assert_eq!(cands[15].host.as_str(), "10.0.0.5");
    assert_eq!(cands[15].port, 3000);
}

#[test]
fn enumeration_single_index_range() {
    let prefixes = vec!["172.16.0".to_string()];
    let ports = vec![8001u16];
    let cands = enumerate_candidates(&prefixes, &ports, 7, 7);
    assert_eq!(cands.len(), 1);
    assert_eq!(cands[0].host.as_str(), "172.16.0.7");
    assert_eq!(cands[0].port, 8001);
}

#[test]
fn overlapping_prefixes_may_repeat_candidates() {
    // A duplicated prefix is not deduplicated: probing a candidate twice is
    // wasted work, not an error.
    let prefixes = vec!["10.0.0".to_string(), "10.0.0".to_string()];
    let ports = vec![3000u16];
    let cands = enumerate_candidates(&prefixes, &ports, 1, 2);
    assert_eq!(cands.len(), 4);
    assert_eq!(cands[0].host, cands[2].host);
    assert_eq!(cands[1].host, cands[3].host);
}

#[test]
fn default_round_configuration() {
    let prefixes = default_prefixes();
    let hosts: Vec<&str> = prefixes.iter().map(|p| p.as_str()).collect();
    assert_eq!(hosts, vec!["192.168.1", "192.168.0", "10.0.0", "172.16.0"]);
    let ports = default_ports();
    assert_eq!(ports, vec![3000, 8080, 8000, 3001, 8001]);
    assert_eq!(DEFAULT_HOST_INDEX_LO, 1);
    assert_eq!(DEFAULT_HOST_INDEX_HI, 20);
    let cands = default_candidates();
    assert_eq!(cands.len(), 4 * 5 * 20);
    assert_eq!(cands[0].host.as_str(), "192.168.1.1");
    assert_eq!(cands[0].port, 3000);
    assert_eq!(cands[cands.len() - 1].host.as_str(), "172.16.0.20");
    assert_eq!(cands[cands.len() - 1].port, 8001);
}
