//! Per-node capability benchmark scores.
//!
//! Each field is the wall-clock latency in milliseconds of one timed probe
//! against a node's service endpoints, or `None` while that probe has never
//! succeeded.  The `*_score` fields are reserved for aggregate scores that
//! the current design never computes; they stay `None`.

use vstd::prelude::*;

verus! {

/// Latency scores of one node, one optional entry per benchmarked operation.
#[derive(Clone, Copy, Debug)]
pub struct ThalamusNodeStats {
    pub apple_tts: Option<i64>,
    pub bark_tts: Option<i64>,
    pub deepspeech_tts: Option<i64>,
    pub espeak_tts: Option<i64>,
    pub watson_tts: Option<i64>,
    pub tts_score: Option<i64>,
    pub llama_7b: Option<i64>,
    pub llama_13b: Option<i64>,
    pub llama_30b: Option<i64>,
    pub llama_65b: Option<i64>,
    pub llama_score: Option<i64>,
    pub nst_score: Option<i64>,
    pub srgan_score: Option<i64>,
    pub whisper_stt_tiny: Option<i64>,
    pub whisper_stt_base: Option<i64>,
    pub whisper_stt_medium: Option<i64>,
    pub whisper_stt_large: Option<i64>,
    pub whisper_stt_score: Option<i64>,
    pub whisper_vwav_tiny: Option<i64>,
    pub whisper_vwav_base: Option<i64>,
    pub whisper_vwav_medium: Option<i64>,
    pub whisper_vwav_large: Option<i64>,
    pub whisper_vwav_score: Option<i64>,
}

impl ThalamusNodeStats {
    /// True when every score of `self` is still unmeasured.
    pub open spec fn is_empty(self) -> bool {
        self == ThalamusNodeStats::empty()
    }

    /// The all-`None` record a node carries before its first benchmark.
    pub open spec fn empty() -> ThalamusNodeStats {
        ThalamusNodeStats {
            apple_tts: None,
            bark_tts: None,
            deepspeech_tts: None,
            espeak_tts: None,
            watson_tts: None,
            tts_score: None,
            llama_7b: None,
            llama_13b: None,
            llama_30b: None,
            llama_65b: None,
            llama_score: None,
            nst_score: None,
            srgan_score: None,
            whisper_stt_tiny: None,
            whisper_stt_base: None,
            whisper_stt_medium: None,
            whisper_stt_large: None,
            whisper_stt_score: None,
            whisper_vwav_tiny: None,
            whisper_vwav_base: None,
            whisper_vwav_medium: None,
            whisper_vwav_large: None,
            whisper_vwav_score: None,
        }
    }

    /// A fresh record with no measurements at all.
    pub fn new() -> (r: ThalamusNodeStats)
        ensures
            r == ThalamusNodeStats::empty(),
    {
        ThalamusNodeStats {
            apple_tts: None,
            bark_tts: None,
            deepspeech_tts: None,
            espeak_tts: None,
            watson_tts: None,
            tts_score: None,
            llama_7b: None,
            llama_13b: None,
            llama_30b: None,
            llama_65b: None,
            llama_score: None,
            nst_score: None,
            srgan_score: None,
            whisper_stt_tiny: None,
            whisper_stt_base: None,
            whisper_stt_medium: None,
            whisper_stt_large: None,
            whisper_stt_score: None,
            whisper_vwav_tiny: None,
            whisper_vwav_base: None,
            whisper_vwav_medium: None,
            whisper_vwav_large: None,
            whisper_vwav_score: None,
        }
    }
}

/// The timings gathered by one construction-time benchmark run.
///
/// The speech-to-text, voice-wav, image-upscaling and large language-model
/// probes are blocking calls whose failure aborts the whole run, so a value
/// of this type only exists once they all succeeded; the two bounded-time
/// language-model probes may instead time out, leaving their axis `None`.
#[derive(Clone, Copy, Debug)]
pub struct BenchmarkMeasurements {
    pub whisper_stt_tiny: i64,
    pub whisper_stt_base: i64,
    pub whisper_stt_medium: i64,
    pub whisper_stt_large: i64,
    pub whisper_vwav_tiny: i64,
    pub whisper_vwav_base: i64,
    pub whisper_vwav_medium: i64,
    pub whisper_vwav_large: i64,
    pub llama_7b: Option<i64>,
    pub llama_13b: Option<i64>,
    pub llama_30b: i64,
    pub llama_65b: i64,
    pub srgan: i64,
}

impl ThalamusNodeStats {
    /// Assembles a node's score record from one finished benchmark run.
    ///
    /// Every measured axis is copied in, the bounded-time language-model
    /// axes staying absent when their probe timed out; the text-to-speech
    /// axes are never probed and stay `None`; every aggregate `*_score`
    /// field is reserved and stays `None`.
    pub fn calculate(m: BenchmarkMeasurements) -> (r: ThalamusNodeStats)
        ensures
            r.whisper_stt_tiny == Some(m.whisper_stt_tiny),
            r.whisper_stt_base == Some(m.whisper_stt_base),
            r.whisper_stt_medium == Some(m.whisper_stt_medium),
            r.whisper_stt_large == Some(m.whisper_stt_large),
            r.whisper_vwav_tiny == Some(m.whisper_vwav_tiny),
            r.whisper_vwav_base == Some(m.whisper_vwav_base),
            r.whisper_vwav_medium == Some(m.whisper_vwav_medium),
            r.whisper_vwav_large == Some(m.whisper_vwav_large),
            r.llama_7b == m.llama_7b,
            r.llama_13b == m.llama_13b,
            r.llama_30b == Some(m.llama_30b),
            r.llama_65b == Some(m.llama_65b),
            r.srgan_score == Some(m.srgan),
            r.whisper_stt_score is None,
            r.whisper_vwav_score is None,
            r.llama_score is None,
            r.tts_score is None,
            r.nst_score is None,
            r.apple_tts is None,
            r.bark_tts is None,
            r.deepspeech_tts is None,
            r.espeak_tts is None,
            r.watson_tts is None,
    {
        ThalamusNodeStats {
            whisper_stt_tiny: Some(m.whisper_stt_tiny),
            whisper_stt_base: Some(m.whisper_stt_base),
            whisper_stt_medium: Some(m.whisper_stt_medium),
            whisper_stt_large: Some(m.whisper_stt_large),
            whisper_stt_score: None,
            llama_7b: m.llama_7b,
            llama_13b: m.llama_13b,
            llama_30b: Some(m.llama_30b),
            llama_65b: Some(m.llama_65b),
            llama_score: None,
            whisper_vwav_tiny: Some(m.whisper_vwav_tiny),
            whisper_vwav_base: Some(m.whisper_vwav_base),
            whisper_vwav_medium: Some(m.whisper_vwav_medium),
            whisper_vwav_large: Some(m.whisper_vwav_large),
            whisper_vwav_score: None,
            srgan_score: Some(m.srgan),
            espeak_tts: None,
            apple_tts: None,
            bark_tts: None,
            watson_tts: None,
            deepspeech_tts: None,
            tts_score: None,
            nst_score: None,
        }
    }
}

} // verus!
