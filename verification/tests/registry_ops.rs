use thalamus::node::{ThalamusNode, ThalamusNodeJob, VersionReply};
use thalamus::registry::ThalamusClient;
use thalamus::stats::{BenchmarkMeasurements, ThalamusNodeStats};

fn reply(pid: &str, version: &str) -> VersionReply {
    VersionReply { version: version.to_string(), pid: pid.to_string() }
}

fn node(pid: &str, addr: &str, last_ping: i64, online: bool) -> ThalamusNode {
    let mut n = ThalamusNode::new(
        pid.to_string(),
        "0.1.0".to_string(),
        addr.to_string(),
        8050,
        last_ping,
        ThalamusNodeStats::new(),
    );
    n.is_online = online;
    n
}

#[test]
fn upsert_inserts_new_node() {
    let mut c = ThalamusClient::new();
    c.upsert_by_version_reply(&reply("n1", "0.1.0"), "10.1.2.3".to_string(), 8050, 100, ThalamusNodeStats::new());
    assert_eq!(c.nodes.len(), 1);
    assert_eq!(c.nodes[0].pid, "n1");
    assert_eq!(c.nodes[0].ip_address, "10.1.2.3");
    assert_eq!(c.nodes[0].version, "0.1.0");
    assert_eq!(c.nodes[0].port, 8050);
    assert_eq!(c.nodes[0].last_ping, 100);
    assert!(c.nodes[0].is_online);
    assert!(c.nodes[0].jobs.is_empty());
    assert_eq!(c.nodes[0].stats.whisper_stt_tiny, None);
}

#[test]
fn upsert_twice_is_idempotent_on_identity_fields() {
    // Applying an unchanged reply again only refreshes liveness.
    let mut c = ThalamusClient::new();
    let mut stats = ThalamusNodeStats::new();
    stats.srgan_score = Some(77);
    c.upsert_by_version_reply(&reply("n1", "0.1.0"), "10.1.2.3".to_string(), 8050, 100, stats);
    c.upsert_by_version_reply(&reply("n1", "0.1.0"), "10.1.2.3".to_string(), 8050, 250, ThalamusNodeStats::new());
    assert_eq!(c.nodes.len(), 1);
    assert_eq!(c.nodes[0].pid, "n1");
    assert_eq!(c.nodes[0].ip_address, "10.1.2.3");
    assert_eq!(c.nodes[0].stats.srgan_score, Some(77));
    assert_eq!(c.nodes[0].last_ping, 250);
    assert!(c.nodes[0].is_online);
}

#[test]
fn scan_dedup_is_by_identity_not_address() {
    // Two addresses answering with the same identity give one entry,
    // keeping the first observed address.
    let mut c = ThalamusClient::new();
    c.upsert_by_version_reply(&reply("same-id", "0.1.0"), "10.1.2.3".to_string(), 8050, 1, ThalamusNodeStats::new());
    c.upsert_by_version_reply(&reply("same-id", "0.1.0"), "10.1.2.99".to_string(), 8050, 2, ThalamusNodeStats::new());
    assert_eq!(c.nodes.len(), 1);
    assert_eq!(c.nodes[0].ip_address, "10.1.2.3");
    assert_eq!(c.nodes[0].last_ping, 2);
}

#[test]
fn offline_transition_keeps_the_node() {
    // A node probed online and later failing a probe at the same address
    // flips online to false without being removed.
    let mut c = ThalamusClient::new();
    c.upsert_by_version_reply(&reply("n1", "0.1.0"), "10.1.2.3".to_string(), 8050, 100, ThalamusNodeStats::new());
    assert!(c.nodes[0].is_online);
    c.mark_offline_by_address(&"10.1.2.3".to_string());
    assert_eq!(c.nodes.len(), 1);
    assert_eq!(c.nodes[0].pid, "n1");
    assert!(!c.nodes[0].is_online);
}

#[test]
fn reprobe_marks_online_again() {
    let mut c = ThalamusClient::new();
    c.upsert_by_version_reply(&reply("n1", "0.1.0"), "10.1.2.3".to_string(), 8050, 100, ThalamusNodeStats::new());
    c.mark_offline_by_address(&"10.1.2.3".to_string());
    c.upsert_by_version_reply(&reply("n1", "0.1.0"), "10.1.2.3".to_string(), 8050, 300, ThalamusNodeStats::new());
    assert!(c.nodes[0].is_online);
    assert_eq!(c.nodes[0].last_ping, 300);
}

#[test]
fn mark_offline_unknown_address_is_a_noop() {
    let mut c = ThalamusClient::new();
    c.upsert_by_version_reply(&reply("n1", "0.1.0"), "10.1.2.3".to_string(), 8050, 100, ThalamusNodeStats::new());
    c.mark_offline_by_address(&"10.9.9.9".to_string());
    assert_eq!(c.nodes.len(), 1);
    assert!(c.nodes[0].is_online);
}

#[test]
fn mark_offline_hits_first_matching_address() {
    let mut c = ThalamusClient::new();
    c.upsert_by_version_reply(&reply("n1", "0.1.0"), "10.1.2.3".to_string(), 8050, 1, ThalamusNodeStats::new());
    c.upsert_by_version_reply(&reply("n2", "0.1.0"), "10.1.2.3".to_string(), 8050, 2, ThalamusNodeStats::new());
    c.mark_offline_by_address(&"10.1.2.3".to_string());
    assert!(!c.nodes[0].is_online);
    assert!(c.nodes[1].is_online);
}

#[test]
fn merge_inserts_gossiped_peer_verbatim() {
    let mut peer = node("remote", "10.5.5.5", 42, true);
    peer.stats.llama_7b = Some(1234);
    peer.stats.whisper_stt_tiny = Some(55);
    let mut c = ThalamusClient::new();
    c.merge_discovered_peer(peer, 900);
    assert_eq!(c.nodes.len(), 1);
    assert_eq!(c.nodes[0].pid, "remote");
    assert_eq!(c.nodes[0].ip_address, "10.5.5.5");
    // The reported scores are trusted, not re-benchmarked.
    assert_eq!(c.nodes[0].stats.llama_7b, Some(1234));
    assert_eq!(c.nodes[0].stats.whisper_stt_tiny, Some(55));
    // An inserted peer keeps its own reported last_ping.
    assert_eq!(c.nodes[0].last_ping, 42);
}

#[test]
fn merge_known_identity_only_refreshes_last_ping() {
    let mut c = ThalamusClient::new();
    c.upsert_by_version_reply(&reply("n1", "0.1.0"), "10.1.2.3".to_string(), 8050, 100, ThalamusNodeStats::new());
    c.mark_offline_by_address(&"10.1.2.3".to_string());
    let mut peer = node("n1", "10.9.9.9", 7, true);
    peer.stats.srgan_score = Some(9);
    c.merge_discovered_peer(peer, 500);
    assert_eq!(c.nodes.len(), 1);
    assert_eq!(c.nodes[0].ip_address, "10.1.2.3");
    assert_eq!(c.nodes[0].stats.srgan_score, None);
    assert_eq!(c.nodes[0].last_ping, 500);
    // Merging does not resurrect an offline node.
    assert!(!c.nodes[0].is_online);
}

#[test]
fn uniqueness_over_mixed_operations() {
    // However upserts and merges interleave for one identity, exactly one
    // entry remains.
    let mut c = ThalamusClient::new();
    c.upsert_by_version_reply(&reply("x", "0.1.0"), "10.0.5.1".to_string(), 8050, 1, ThalamusNodeStats::new());
    c.merge_discovered_peer(node("x", "10.0.5.2", 2, true), 2);
    c.upsert_by_version_reply(&reply("x", "0.2.0"), "10.0.5.3".to_string(), 8050, 3, ThalamusNodeStats::new());
    c.merge_discovered_peer(node("x", "10.0.5.4", 4, true), 4);
    assert_eq!(c.nodes.len(), 1);
    assert_eq!(c.nodes[0].pid, "x");
}

#[test]
fn snapshot_is_a_point_in_time_copy() {
    let mut c = ThalamusClient::new();
    c.upsert_by_version_reply(&reply("n1", "0.1.0"), "10.1.2.3".to_string(), 8050, 100, ThalamusNodeStats::new());
    let snap = c.snapshot();
    c.mark_offline_by_address(&"10.1.2.3".to_string());
    assert_eq!(snap.len(), 1);
    assert!(snap[0].is_online);
    assert!(!c.nodes[0].is_online);
}

#[test]
fn contains_pid_reports_membership() {
    let mut c = ThalamusClient::new();
    assert!(!c.contains_pid(&"n1".to_string()));
    c.upsert_by_version_reply(&reply("n1", "0.1.0"), "10.1.2.3".to_string(), 8050, 100, ThalamusNodeStats::new());
    assert!(c.contains_pid(&"n1".to_string()));
    assert!(!c.contains_pid(&"n2".to_string()));
}

#[test]
fn job_marker_has_random_fifteen_char_id() {
    let j = ThalamusNodeJob::new(777);
    assert_eq!(j.oid.chars().count(), 15);
    assert!(j.oid.chars().all(|c| c.is_ascii_alphanumeric()));
    assert_eq!(j.url, "");
    assert_eq!(j.started_at, 777);
    let j2 = ThalamusNodeJob::new(777);
    assert_eq!(j2.oid.len(), 15);
}

#[test]
fn node_clone_preserves_every_field() {
    let mut n = node("n1", "10.1.2.3", 5, true);
    n.jobs.push(ThalamusNodeJob::new(9));
    n.stats.llama_30b = Some(3);
    let c = n.clone();
    assert_eq!(c.pid, n.pid);
    assert_eq!(c.ip_address, n.ip_address);
    assert_eq!(c.jobs.len(), 1);
    assert_eq!(c.jobs[0].oid, n.jobs[0].oid);
    assert_eq!(c.stats.llama_30b, Some(3));
}

#[test]
fn calculate_assembles_scores_with_reserved_fields_unset() {
    let m = BenchmarkMeasurements {
        whisper_stt_tiny: 11,
        whisper_stt_base: 12,
        whisper_stt_medium: 13,
        whisper_stt_large: 14,
        whisper_vwav_tiny: 21,
        whisper_vwav_base: 22,
        whisper_vwav_medium: 23,
        whisper_vwav_large: 24,
        llama_7b: Some(31),
        llama_13b: Some(32),
        llama_30b: 33,
        llama_65b: 34,
        srgan: 41,
    };
    let s = ThalamusNodeStats::calculate(m);
    assert_eq!(s.whisper_stt_tiny, Some(11));
    assert_eq!(s.whisper_stt_base, Some(12));
    assert_eq!(s.whisper_stt_medium, Some(13));
    assert_eq!(s.whisper_stt_large, Some(14));
    assert_eq!(s.whisper_vwav_tiny, Some(21));
    assert_eq!(s.whisper_vwav_base, Some(22));
    assert_eq!(s.whisper_vwav_medium, Some(23));
    assert_eq!(s.whisper_vwav_large, Some(24));
    assert_eq!(s.llama_7b, Some(31));
    assert_eq!(s.llama_13b, Some(32));
    assert_eq!(s.llama_30b, Some(33));
    assert_eq!(s.llama_65b, Some(34));
    assert_eq!(s.srgan_score, Some(41));
    // Aggregate scores are reserved, never computed.
    assert_eq!(s.whisper_stt_score, None);
    assert_eq!(s.whisper_vwav_score, None);
    assert_eq!(s.llama_score, None);
    assert_eq!(s.tts_score, None);
    assert_eq!(s.nst_score, None);
    // The text-to-speech axes are never probed.
    assert_eq!(s.apple_tts, None);
    assert_eq!(s.bark_tts, None);
    assert_eq!(s.deepspeech_tts, None);
    assert_eq!(s.espeak_tts, None);
    assert_eq!(s.watson_tts, None);
}

#[test]
fn calculate_leaves_timed_out_bounded_axes_absent() {
    let m = BenchmarkMeasurements {
        whisper_stt_tiny: 1,
        whisper_stt_base: 2,
        whisper_stt_medium: 3,
        whisper_stt_large: 4,
        whisper_vwav_tiny: 5,
        whisper_vwav_base: 6,
        whisper_vwav_medium: 7,
        whisper_vwav_large: 8,
        llama_7b: None,
        llama_13b: None,
        llama_30b: 9,
        llama_65b: 10,
        srgan: 11,
    };
    let s = ThalamusNodeStats::calculate(m);
    assert_eq!(s.llama_7b, None);
    assert_eq!(s.llama_13b, None);
    assert_eq!(s.llama_30b, Some(9));
}

#[test]
fn fresh_stats_are_all_absent() {
    let s = ThalamusNodeStats::new();
    assert_eq!(s.whisper_stt_tiny, None);
    assert_eq!(s.llama_7b, None);
    assert_eq!(s.srgan_score, None);
    assert_eq!(s.tts_score, None);
}
