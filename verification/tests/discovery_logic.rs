use thalamus::discovery::{
    advertise_interfaces, candidate_allowed, eligible_advertise_interface,
    eligible_scan_interface, mdns_service_name, subnet_hosts, DEFAULT_PORT,
    LLAMA_TEST_TIMEOUT_MS,
};
use thalamus::node::{srgan_filename, version_url, ThalamusNode, VersionReply};
use thalamus::registry::ThalamusClient;
use thalamus::stats::ThalamusNodeStats;

fn node(pid: &str, addr: &str, last_ping: i64) -> ThalamusNode {
    ThalamusNode::new(
        pid.to_string(),
        "0.1.0".to_string(),
        addr.to_string(),
        8050,
        last_ping,
        ThalamusNodeStats::new(),
    )
}

#[test]
fn scan_skips_loopback_and_ipv6_interfaces() {
    assert!(eligible_scan_interface("192.168.1.4"));
    assert!(eligible_scan_interface("10.0.0.7"));
    assert!(!eligible_scan_interface("127.0.0.1"));
    assert!(!eligible_scan_interface("::1"));
    assert!(!eligible_scan_interface("fe80::4021:6ff:fe30:58e2"));
}

#[test]
fn advertise_also_skips_gateway_heuristic_addresses() {
    assert!(eligible_advertise_interface("192.168.1.4"));
    assert!(!eligible_advertise_interface("192.168.0.1"));
    assert!(!eligible_advertise_interface("10.0.1.5"));
    assert!(!eligible_advertise_interface("127.0.0.1"));
    assert!(!eligible_advertise_interface("fe80::1"));
}

#[test]
fn blocked_candidates_are_never_probed() {
    // Any discovered address containing the literal ".0.1" is filtered.
    assert!(!candidate_allowed("192.168.0.1"));
    assert!(!candidate_allowed("10.0.0.1:8050"));
    assert!(!candidate_allowed("172.16.0.12"));
    assert!(candidate_allowed("192.168.1.20:8050"));
    assert!(candidate_allowed("10.1.2.3"));
}

#[test]
fn advertise_interfaces_filters_and_keeps_order() {
    let interfaces = vec![
        "192.168.1.4".to_string(),
        "127.0.0.1".to_string(),
        "10.0.1.5".to_string(),
        "fe80::1".to_string(),
        "192.168.1.9".to_string(),
    ];
    let out = advertise_interfaces(&interfaces);
    assert_eq!(out, vec!["192.168.1.4".to_string(), "192.168.1.9".to_string()]);
}

#[test]
fn subnet_hosts_walks_the_whole_slash24() {
    let hosts = subnet_hosts("192.168.1.77");
    assert_eq!(hosts.len(), 254);
    assert_eq!(hosts[0], "192.168.1.1");
    assert_eq!(hosts[99], "192.168.1.100");
    assert_eq!(hosts[253], "192.168.1.254");
    assert!(hosts.iter().all(|h| h.starts_with("192.168.1.")));
}

#[test]
fn browse_outcomes_update_the_registry() {
    let mut c = ThalamusClient::new();
    let v = VersionReply { version: "0.1.0".to_string(), pid: "n1".to_string() };
    c.apply_browse_result("10.0.2.3:8050".to_string(), Some(&v), 50, ThalamusNodeStats::new());
    assert_eq!(c.nodes.len(), 1);
    assert_eq!(c.nodes[0].ip_address, "10.0.2.3:8050");
    assert_eq!(c.nodes[0].port, DEFAULT_PORT);
    assert!(c.nodes[0].is_online);
    c.apply_browse_result("10.0.2.3:8050".to_string(), None, 60, ThalamusNodeStats::new());
    assert_eq!(c.nodes.len(), 1);
    assert!(!c.nodes[0].is_online);
}

#[test]
fn gossip_propagates_membership_in_two_rounds() {
    // A knows B; C is reachable from B but not yet in B's table.  One
    // gossip round at A learns nothing new; after B itself has gossiped
    // (its table now holds C), a second round at A discovers C, with C's
    // reported scores copied verbatim.
    let mut a = ThalamusClient::new();
    let mut b = ThalamusClient::new();
    a.merge_discovered_peer(node("node-b", "10.0.2.2", 1), 1);

    // Round one: A asks B for its peers; B knows nobody yet.
    let reply_one = b.snapshot();
    a.apply_gossip_reply(reply_one, 10);
    assert_eq!(a.nodes.len(), 1);
    assert!(!a.contains_pid(&"node-c".to_string()));

    // B gossips with C and learns it, full benchmark scores included.
    let mut c_record = node("node-c", "10.0.2.9", 5);
    c_record.stats.llama_7b = Some(808);
    b.merge_discovered_peer(c_record, 5);

    // Round two: A asks B again and now discovers C.
    let reply_two = b.snapshot();
    a.apply_gossip_reply(reply_two, 20);
    assert_eq!(a.nodes.len(), 2);
    assert!(a.contains_pid(&"node-c".to_string()));
    assert_eq!(a.nodes[1].pid, "node-c");
    assert_eq!(a.nodes[1].stats.llama_7b, Some(808));
    // Gossip has no liveness side effects on the queried node itself.
    assert_eq!(a.nodes[0].pid, "node-b");
    assert_eq!(a.nodes[0].last_ping, 1);
    assert!(a.nodes[0].is_online);
}

#[test]
fn gossip_merge_is_idempotent() {
    let mut a = ThalamusClient::new();
    let peers = vec![node("p1", "10.0.2.4", 3), node("p2", "10.0.2.5", 4)];
    let again = vec![node("p1", "10.0.2.4", 3), node("p2", "10.0.2.5", 4)];
    a.apply_gossip_reply(peers, 100);
    a.apply_gossip_reply(again, 200);
    assert_eq!(a.nodes.len(), 2);
    assert_eq!(a.nodes[0].last_ping, 200);
    assert_eq!(a.nodes[1].last_ping, 200);
}

#[test]
fn fixed_transport_parameters() {
    assert_eq!(DEFAULT_PORT, 8050);
    assert_eq!(LLAMA_TEST_TIMEOUT_MS, 60000);
    assert_eq!(mdns_service_name(), "_thalamus._tcp.local");
}

#[test]
fn service_urls_follow_the_peer_contract() {
    let n = node("n1", "10.0.2.3:8050", 1);
    assert_eq!(version_url("10.0.2.3:8050"), "http://10.0.2.3:8050/api/thalamus/version");
    assert_eq!(n.whisper_url(), "http://10.0.2.3:8050/api/services/whisper");
    assert_eq!(n.vwav_url(), "http://10.0.2.3:8050/api/services/whisper/vwav");
    assert_eq!(n.srgan_url(), "http://10.0.2.3:8050/api/services/image/srgan");
    assert_eq!(n.llama_url(), "http://10.0.2.3:8050/api/services/llama");
    assert_eq!(n.tts_url(), "http://10.0.2.3:8050/api/services/tts");
}

#[test]
fn nodex_url_supplies_the_default_port_when_the_address_has_none() {
    let bare = node("n1", "10.0.2.3", 1);
    assert_eq!(bare.nodex_url(), "http://10.0.2.3:8050/api/nodex");
    let with_port = node("n1", "10.0.2.3:9000", 1);
    assert_eq!(with_port.nodex_url(), "http://10.0.2.3:9000/api/nodex");
}

#[test]
fn srgan_upload_name_keeps_the_extension() {
    assert_eq!(srgan_filename("/opt/thalamusc/test.jpg", 1234), "1234.jpg");
    assert_eq!(srgan_filename("archive.tar.gz", 9), "9.gz");
    assert_eq!(srgan_filename("noextension", 7), "7.noextension");
    assert_eq!(srgan_filename("img.png", -5), "-5.png");
}
