//! Node records: one entry per worker known to the registry.

use vstd::prelude::*;

use crate::stats::ThalamusNodeStats;
use crate::text::{
    chars_to_string, contains_char, int_digits, last_dot, str_contains_char, write_i64,
    write_str_skip,
};

verus! {

/// The version endpoint probed for liveness and identity, on `host`.
pub fn version_url(host: &str) -> (r: String)
    ensures
        r@ == "http://"@ + host@ + "/api/thalamus/version"@,
{
    let mut u = ("http://").to_owned();
    u.append(host);
    u.append("/api/thalamus/version");
    u
}

/// The upload name the image-upscaling probe sends along: the timestamp,
/// a dot, and whatever follows the last dot of the local file's path (the
/// whole path when it has no dot, faithfully to taking the last
/// dot-separated part).
pub fn srgan_filename(tmp_file_path: &str, timestamp: i64) -> (r: String)
    ensures
        r@ == int_digits(timestamp) + seq!['.'] + tmp_file_path@.skip(
            last_dot(tmp_file_path@) + 1,
        ),
{
    proof {
        crate::text::lemma_last_dot_bounds(tmp_file_path@);
    }
    let j = crate::text::dot_boundary(tmp_file_path);
    let mut buf: Vec<char> = Vec::new();
    write_i64(&mut buf, timestamp);
    buf.push('.');
    write_str_skip(&mut buf, tmp_file_path, j);
    proof {
        assert(buf@ =~= int_digits(timestamp) + seq!['.'] + tmp_file_path@.skip(
            last_dot(tmp_file_path@) + 1,
        ));
    }
    chars_to_string(&buf)
}

/// What a liveness probe of the fixed version endpoint returns on success:
/// the remote node's self-generated identity and its software version.
#[derive(Debug)]
pub struct VersionReply {
    pub version: String,
    pub pid: String,
}

impl Clone for VersionReply {
    /// Clones preserve the reply's value exactly.
    fn clone(&self) -> (r: Self)
        ensures
            r.version@ == self.version@,
            r.pid@ == self.pid@,
    {
        VersionReply { version: self.version.clone(), pid: self.pid.clone() }
    }
}

/// An in-flight work marker carried by a node.
#[derive(Debug)]
pub struct ThalamusNodeJob {
    pub oid: String,
    pub url: String,
    pub started_at: i64,
}

/// Mathematical value of a job: its fields with strings as char sequences.
pub ghost struct JobView {
    pub oid: Seq<char>,
    pub url: Seq<char>,
    pub started_at: i64,
}

impl View for ThalamusNodeJob {
    type V = JobView;

    open spec fn view(&self) -> JobView {
        JobView { oid: self.oid@, url: self.url@, started_at: self.started_at }
    }
}

/// One worker node: identity, location, liveness and benchmark scores.
///
/// `pid` is the only deduplication key; `ip_address` may change across
/// restarts and is only used as a fallback key when marking a node offline.
#[derive(Debug)]
pub struct ThalamusNode {
    pub pid: String,
    pub ip_address: String,
    pub version: String,
    pub port: u16,
    pub jobs: Vec<ThalamusNodeJob>,
    pub last_ping: i64,
    pub stats: ThalamusNodeStats,
    pub is_online: bool,
}

/// Mathematical value of a node record.
pub ghost struct NodeView {
    pub pid: Seq<char>,
    pub ip_address: Seq<char>,
    pub version: Seq<char>,
    pub port: u16,
    pub jobs: Seq<JobView>,
    pub last_ping: i64,
    pub stats: ThalamusNodeStats,
    pub is_online: bool,
}

impl View for ThalamusNode {
    type V = NodeView;

    open spec fn view(&self) -> NodeView {
        NodeView {
            pid: self.pid@,
            ip_address: self.ip_address@,
            version: self.version@,
            port: self.port,
            jobs: self.jobs@.map_values(|j: ThalamusNodeJob| j@),
            last_ping: self.last_ping,
            stats: self.stats,
            is_online: self.is_online,
        }
    }
}

/// True of the characters rand's `Alphanumeric` distribution can produce.
pub open spec fn is_oid_char(c: char) -> bool {
    ('a' <= c && c <= 'z') || ('A' <= c && c <= 'Z') || ('0' <= c && c <= '9')
}

/// Relies on rand's `thread_rng` sampling of the `Alphanumeric` distribution:
/// every sampled byte is an ASCII letter or digit, and `take(15)` of the
/// infinite sample iterator yields exactly fifteen of them.
#[verifier::external_body]
fn random_oid() -> (r: String)
    ensures
        r@.len() == 15,
        forall|i: int| 0 <= i < r@.len() ==> is_oid_char(#[trigger] r@[i]),
{
    rand::Rng::sample_iter(rand::thread_rng(), &rand::distributions::Alphanumeric)
        .take(15)
        .map(char::from)
        .collect()
}

impl Clone for ThalamusNodeJob {
    /// Clones preserve the job's value exactly.
    fn clone(&self) -> (r: Self)
        ensures
            r@ == self@,
    {
        ThalamusNodeJob {
            oid: self.oid.clone(),
            url: self.url.clone(),
            started_at: self.started_at,
        }
    }
}

impl ThalamusNodeJob {
    /// A fresh job marker: a random fifteen-character id, no target URL yet,
    /// started at the supplied epoch-seconds timestamp.
    pub fn new(now: i64) -> (r: ThalamusNodeJob)
        ensures
            r.oid@.len() == 15,
            forall|i: int| 0 <= i < r.oid@.len() ==> is_oid_char(#[trigger] r.oid@[i]),
            r.url@.len() == 0,
            r.started_at == now,
    {
        ThalamusNodeJob { oid: random_oid(), url: String::new(), started_at: now }
    }
}

impl Clone for ThalamusNode {
    /// Clones preserve the node's value exactly.
    fn clone(&self) -> (r: Self)
        ensures
            r@ == self@,
    {
        let mut jobs: Vec<ThalamusNodeJob> = Vec::new();
        let mut i: usize = 0;
        while i < self.jobs.len()
            invariant
                i <= self.jobs.len(),
                jobs@.len() == i,
                forall|k: int| 0 <= k < i ==> jobs@[k]@ == self.jobs@[k]@,
            decreases self.jobs.len() - i,
        {
            jobs.push(self.jobs[i].clone());
            i = i + 1;
        }
        proof {
            assert(jobs@.map_values(|j: ThalamusNodeJob| j@) =~= self.jobs@.map_values(
                |j: ThalamusNodeJob| j@,
            ));
        }
        ThalamusNode {
            pid: self.pid.clone(),
            ip_address: self.ip_address.clone(),
            version: self.version.clone(),
            port: self.port,
            jobs,
            last_ping: self.last_ping,
            stats: self.stats,
            is_online: self.is_online,
        }
    }
}

impl ThalamusNode {
    /// A node as first registered: the probed identity, version and address,
    /// an empty job list, confirmed online at `now`, carrying the supplied
    /// benchmark result.
    ///
    /// Construction-time benchmarking is a remote operation, so the caller
    /// runs it and hands the finished scores in; a node that could not be
    /// benchmarked is never constructed.
    pub fn new(
        pid: String,
        version: String,
        ip_address: String,
        port: u16,
        now: i64,
        stats: ThalamusNodeStats,
    ) -> (r: ThalamusNode)
        ensures
            r@ == (NodeView {
                pid: pid@,
                ip_address: ip_address@,
                version: version@,
                port: port,
                jobs: Seq::<JobView>::empty(),
                last_ping: now,
                stats: stats,
                is_online: true,
            }),
    {
        let jobs: Vec<ThalamusNodeJob> = Vec::new();
        let r = ThalamusNode {
            pid,
            ip_address,
            version,
            port,
            jobs,
            last_ping: now,
            stats,
            is_online: true,
        };
        proof {
            assert(r@.jobs =~= Seq::<JobView>::empty());
        }
        r
    }

    /// The speech-to-text endpoint of this node.
    pub fn whisper_url(&self) -> (r: String)
        ensures
            r@ == "http://"@ + self.ip_address@ + "/api/services/whisper"@,
    {
        let mut u = ("http://").to_owned();
        u.append(self.ip_address.as_str());
        u.append("/api/services/whisper");
        u
    }

    /// The voice-wav endpoint of this node.
    pub fn vwav_url(&self) -> (r: String)
        ensures
            r@ == "http://"@ + self.ip_address@ + "/api/services/whisper/vwav"@,
    {
        let mut u = ("http://").to_owned();
        u.append(self.ip_address.as_str());
        u.append("/api/services/whisper/vwav");
        u
    }

    /// The image-upscaling endpoint of this node.
    pub fn srgan_url(&self) -> (r: String)
        ensures
            r@ == "http://"@ + self.ip_address@ + "/api/services/image/srgan"@,
    {
        let mut u = ("http://").to_owned();
        u.append(self.ip_address.as_str());
        u.append("/api/services/image/srgan");
        u
    }

    /// The text-generation endpoint of this node.
    pub fn llama_url(&self) -> (r: String)
        ensures
            r@ == "http://"@ + self.ip_address@ + "/api/services/llama"@,
    {
        let mut u = ("http://").to_owned();
        u.append(self.ip_address.as_str());
        u.append("/api/services/llama");
        u
    }

    /// The text-to-speech endpoint of this node.
    pub fn tts_url(&self) -> (r: String)
        ensures
            r@ == "http://"@ + self.ip_address@ + "/api/services/tts"@,
    {
        let mut u = ("http://").to_owned();
        u.append(self.ip_address.as_str());
        u.append("/api/services/tts");
        u
    }

    /// The peer-list endpoint of this node.
    ///
    /// An address that already names a port (it holds a colon) is used as
    /// it stands; otherwise the node's default service `port` is appended
    /// to it.
    pub fn nodex_url(&self) -> (r: String)
        ensures
            r@ == if contains_char(self.ip_address@, ':') {
                "http://"@ + self.ip_address@ + "/api/nodex"@
            } else {
                "http://"@ + self.ip_address@ + seq![':'] + crate::text::dec_digits(
                    self.port as nat,
                ) + "/api/nodex"@
            },
    {
        let mut u = ("http://").to_owned();
        u.append(self.ip_address.as_str());
        if !str_contains_char(self.ip_address.as_str(), ':') {
            let mut buf: Vec<char> = Vec::new();
            buf.push(':');
            crate::text::write_u64(&mut buf, self.port as u64);
            u.append(chars_to_string(&buf).as_str());
            proof {
                assert(u@ =~= "http://"@ + self.ip_address@ + seq![':'] + crate::text::dec_digits(
                    self.port as nat,
                ));
            }
        }
        u.append("/api/nodex");
        u
    }
}

} // verus!
