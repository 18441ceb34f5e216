use thalamus::node::{ThalamusNode, ThalamusNodeJob, VersionReply};
use thalamus::registry::ThalamusClient;
use thalamus::stats::ThalamusNodeStats;

fn reply(pid: &str, version: &str) -> VersionReply {
    VersionReply { version: version.to_string(), pid: pid.to_string() }
}

#[test]
fn empty_registry_snapshot_text() {
    let c = ThalamusClient::new();
    assert_eq!(c.save(), "{\"nodes\":[]}");
}

#[test]
fn one_node_snapshot_text() {
    let mut c = ThalamusClient::new();
    c.upsert_by_version_reply(&reply("ab", "1"), "10.0.2.3".to_string(), 8050, 5, ThalamusNodeStats::new());
    let expected = "{\"nodes\":[{\"pid\":\"ab\",\"ip_address\":\"10.0.2.3\",\"version\":\"1\",\"port\":8050,\"jobs\":[],\"last_ping\":5,\"stats\":{\"apple_tts\":null,\"bark_tts\":null,\"deepspeech_tts\":null,\"espeak_tts\":null,\"watson_tts\":null,\"tts_score\":null,\"llama_7b\":null,\"llama_13b\":null,\"llama_30b\":null,\"llama_65b\":null,\"llama_score\":null,\"nst_score\":null,\"srgan_score\":null,\"whisper_stt_tiny\":null,\"whisper_stt_base\":null,\"whisper_stt_medium\":null,\"whisper_stt_large\":null,\"whisper_stt_score\":null,\"whisper_vwav_tiny\":null,\"whisper_vwav_base\":null,\"whisper_vwav_medium\":null,\"whisper_vwav_large\":null,\"whisper_vwav_score\":null},\"is_online\":true}]}";
    assert_eq!(c.save(), expected);
}

#[test]
fn round_trip_preserves_every_field() {
    let mut c = ThalamusClient::new();
    let mut stats = ThalamusNodeStats::new();
    stats.whisper_stt_tiny = Some(17);
    stats.llama_7b = Some(-3);
    stats.llama_13b = Some(13);
    stats.srgan_score = Some(i64::MAX);
    stats.whisper_vwav_large = Some(i64::MIN);
    let mut n1 = ThalamusNode::new(
        "node-one".to_string(),
        "0.9.1".to_string(),
        "192.168.7.3:8050".to_string(),
        8050,
        -62135596800,
        stats,
    );
    let mut job = ThalamusNodeJob::new(1700000000);
    job.url = "http://192.168.7.9/api/services/whisper".to_string();
    n1.jobs.push(job);
    n1.is_online = false;
    let n2 = ThalamusNode::new(
        "node-two".to_string(),
        String::new(),
        "10.0.2.8".to_string(),
        65535,
        i64::MAX,
        ThalamusNodeStats::new(),
    );
    c.merge_discovered_peer(n1, 1);
    c.merge_discovered_peer(n2, 2);

    let text = c.save();
    let (restored, to_write) = ThalamusClient::load(Some(text.as_str()));
    assert!(to_write.is_none());
    assert_eq!(restored.nodes.len(), 2);
    let r1 = &restored.nodes[0];
    assert_eq!(r1.pid, "node-one");
    assert_eq!(r1.version, "0.9.1");
    assert_eq!(r1.ip_address, "192.168.7.3:8050");
    assert_eq!(r1.port, 8050);
    assert_eq!(r1.last_ping, -62135596800);
    assert!(!r1.is_online);
    assert_eq!(r1.stats.whisper_stt_tiny, Some(17));
    assert_eq!(r1.stats.llama_7b, Some(-3));
    assert_eq!(r1.stats.srgan_score, Some(i64::MAX));
    assert_eq!(r1.stats.whisper_vwav_large, Some(i64::MIN));
    assert_eq!(r1.stats.llama_13b, Some(13));
    assert_eq!(r1.jobs.len(), 1);
    assert_eq!(r1.jobs[0].oid, c.nodes[0].jobs[0].oid);
    assert_eq!(r1.jobs[0].url, "http://192.168.7.9/api/services/whisper");
    assert_eq!(r1.jobs[0].started_at, 1700000000);
    let r2 = &restored.nodes[1];
    assert_eq!(r2.pid, "node-two");
    assert_eq!(r2.version, "");
    assert_eq!(r2.port, 65535);
    assert_eq!(r2.last_ping, i64::MAX);
    assert!(r2.is_online);
    assert_eq!(r2.stats.whisper_stt_tiny, None);
}

#[test]
fn round_trip_escapes_quotes_and_backslashes() {
    let mut c = ThalamusClient::new();
    let n = ThalamusNode::new(
        "we\"ird\\id".to_string(),
        "v\"1\\2".to_string(),
        "10.0.2.8".to_string(),
        8050,
        3,
        ThalamusNodeStats::new(),
    );
    c.merge_discovered_peer(n, 3);
    let text = c.save();
    assert!(text.contains("we\\\"ird\\\\id"));
    let (restored, to_write) = ThalamusClient::load(Some(text.as_str()));
    assert!(to_write.is_none());
    assert_eq!(restored.nodes[0].pid, "we\"ird\\id");
    assert_eq!(restored.nodes[0].version, "v\"1\\2");
}

#[test]
fn round_trip_escapes_control_characters() {
    let mut c = ThalamusClient::new();
    let n = ThalamusNode::new(
        "line\none".to_string(),
        "tab\there\rdone".to_string(),
        "10.0.2.8".to_string(),
        8050,
        3,
        ThalamusNodeStats::new(),
    );
    c.merge_discovered_peer(n, 3);
    let text = c.save();
    assert!(text.contains("line\\none"));
    assert!(text.contains("tab\\there\\rdone"));
    assert!(!text.contains('\n'));
    let (restored, to_write) = ThalamusClient::load(Some(text.as_str()));
    assert!(to_write.is_none());
    assert_eq!(restored.nodes[0].pid, "line\none");
    assert_eq!(restored.nodes[0].version, "tab\there\rdone");
}

#[test]
fn round_trip_uses_u_escapes_for_unnamed_control_characters() {
    let mut c = ThalamusClient::new();
    let n = ThalamusNode::new(
        "soh\u{1}bell\u{7}".to_string(),
        "bs\u{8}ff\u{c}us\u{1f}".to_string(),
        "10.0.2.8".to_string(),
        8050,
        3,
        ThalamusNodeStats::new(),
    );
    c.merge_discovered_peer(n, 3);
    let text = c.save();
    assert!(text.contains("soh\\u0001bell\\u0007"));
    assert!(text.contains("bs\\bff\\fus\\u001f"));
    assert!(text.chars().all(|ch| ch >= ' '));
    let (restored, to_write) = ThalamusClient::load(Some(text.as_str()));
    assert!(to_write.is_none());
    assert_eq!(restored.nodes[0].pid, "soh\u{1}bell\u{7}");
    assert_eq!(restored.nodes[0].version, "bs\u{8}ff\u{c}us\u{1f}");
}

#[test]
fn restore_accepts_foreign_string_escapes() {
    // A snapshot written by another JSON producer may use solidus escapes
    // and `\u00XX` forms for characters this encoder writes differently.
    let with_node = String::from("{\"nodes\":[{\"pid\":\"a\\/b\\u0041\\u000a\",\"ip_address\":\"x\",\"version\":\"\",\"port\":1,\"jobs\":[],\"last_ping\":0,\"stats\":{\"apple_tts\":null,\"bark_tts\":null,\"deepspeech_tts\":null,\"espeak_tts\":null,\"watson_tts\":null,\"tts_score\":null,\"llama_7b\":null,\"llama_13b\":null,\"llama_30b\":null,\"llama_65b\":null,\"llama_score\":null,\"nst_score\":null,\"srgan_score\":null,\"whisper_stt_tiny\":null,\"whisper_stt_base\":null,\"whisper_stt_medium\":null,\"whisper_stt_large\":null,\"whisper_stt_score\":null,\"whisper_vwav_tiny\":null,\"whisper_vwav_base\":null,\"whisper_vwav_medium\":null,\"whisper_vwav_large\":null,\"whisper_vwav_score\":null},\"is_online\":true}]}");
    let (restored, to_write) = ThalamusClient::load(Some(with_node.as_str()));
    assert!(to_write.is_none());
    assert_eq!(restored.nodes[0].pid, "a/bA\n");
}

#[test]
fn restore_rejects_escapes_beyond_one_byte() {
    // Four-digit escapes above 00FF are not produced here and are treated
    // as corruption.
    let text = "{\"nodes\":[{\"pid\":\"\\u0100\",\"ip_address\":\"x\",\"version\":\"\",\"port\":1,\"jobs\":[]}]}";
    let (restored, to_write) = ThalamusClient::load(Some(text));
    assert!(restored.nodes.is_empty());
    assert!(to_write.is_some());
}

#[test]
fn restore_missing_file_self_heals() {
    let (restored, to_write) = ThalamusClient::load(None);
    assert!(restored.nodes.is_empty());
    let healed = to_write.expect("a healed registry writes its snapshot at once");
    assert_eq!(healed, "{\"nodes\":[]}");
    // A subsequent restore of what was just written stays empty and needs
    // no further healing.
    let (again, to_write_again) = ThalamusClient::load(Some(healed.as_str()));
    assert!(again.nodes.is_empty());
    assert!(to_write_again.is_none());
}

#[test]
fn restore_corrupt_file_self_heals() {
    for bad in [
        "",
        "garbage",
        "{\"nodes\":[",
        "{\"nodes\":[{\"pid\":\"a\"}]}",
        "{\"nodes\":[]}trailing",
        "{\"nodes\":[]",
        "{\"nodes\":[{\"pid\":\"a\",\"ip_address\":\"b\",\"version\":\"c\",\"port\":99999}]}",
    ] {
        let (restored, to_write) = ThalamusClient::load(Some(bad));
        assert!(restored.nodes.is_empty(), "input {:?} must heal empty", bad);
        assert_eq!(to_write.as_deref(), Some("{\"nodes\":[]}"));
    }
}

#[test]
fn restore_rejects_oversized_numbers() {
    let text = "{\"nodes\":[{\"pid\":\"a\",\"ip_address\":\"b\",\"version\":\"c\",\"port\":18446744073709551616,\"jobs\":[]}]}";
    let (restored, to_write) = ThalamusClient::load(Some(text));
    assert!(restored.nodes.is_empty());
    assert!(to_write.is_some());
}

#[test]
fn save_after_mutations_round_trips() {
    let mut c = ThalamusClient::new();
    c.upsert_by_version_reply(&reply("a", "1"), "10.0.2.3".to_string(), 8050, 5, ThalamusNodeStats::new());
    c.upsert_by_version_reply(&reply("b", "2"), "10.0.2.4".to_string(), 8050, 6, ThalamusNodeStats::new());
    c.mark_offline_by_address(&"10.0.2.4".to_string());
    let (restored, _) = ThalamusClient::load(Some(c.save().as_str()));
    assert_eq!(restored.nodes.len(), 2);
    assert!(restored.nodes[0].is_online);
    assert!(!restored.nodes[1].is_online);
    assert_eq!(restored.nodes[1].pid, "b");
}
