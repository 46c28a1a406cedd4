use vstd::prelude::*;

use crate::text::{chars_of, slices_equal_chars};

verus! {

/// Current version of every schema this crate writes.
pub const SCHEMA_VERSION: u32 = 1;

/// One benchmark question. `metadata` holds key/value pairs with unique keys.
#[derive(Clone)]
pub struct TestCase {
    pub schema_version: u32,
    pub id: String,
    pub context: String,
    pub question: String,
    pub expected: Vec<String>,
    pub grader: Grader,
    pub metadata: Vec<(String, String)>,
}

#[derive(Clone)]
pub enum Grader {
    Exact,
    Regex(String),
    Json,
    JsonFields,
    ItemSet,
    Contains,
    LlmJudge,
    ExpectRefusal,
}

#[derive(PartialEq, Eq, Structural, Clone, Copy, Debug)]
pub enum ErrorKind {
    ContextRoute,
    ContextLoad,
    Transport,
    Http,
    ResponseDecode,
    Validation,
    Judge,
}

impl ErrorKind {
    /// The variant's name, as `{:?}` prints it.
    pub open spec fn name_spec(self) -> Seq<char> {
        match self {
            ErrorKind::ContextRoute => "ContextRoute"@,
            ErrorKind::ContextLoad => "ContextLoad"@,
            ErrorKind::Transport => "Transport"@,
            ErrorKind::Http => "Http"@,
            ErrorKind::ResponseDecode => "ResponseDecode"@,
            ErrorKind::Validation => "Validation"@,
            ErrorKind::Judge => "Judge"@,
        }
    }

    pub fn name(self) -> (s: String)
        ensures
            s@ == self.name_spec(),
    {
        match self {
            ErrorKind::ContextRoute => String::from_str("ContextRoute"),
            ErrorKind::ContextLoad => String::from_str("ContextLoad"),
            ErrorKind::Transport => String::from_str("Transport"),
            ErrorKind::Http => String::from_str("Http"),
            ErrorKind::ResponseDecode => String::from_str("ResponseDecode"),
            ErrorKind::Validation => String::from_str("Validation"),
            ErrorKind::Judge => String::from_str("Judge"),
        }
    }
}

/// A candidate context considered by the router. Scores are kept in half
/// points: every routing signal is worth a multiple of one half.
#[derive(Clone)]
pub struct RoutingCandidate {
    pub context_id: String,
    pub path: String,
    pub score_halves: u64,
    pub reasons: Vec<String>,
}

/// The router's confidence: either the scores it was computed from, or a
/// value recorded in a results file (the bit pattern of an IEEE-754 double).
#[derive(PartialEq, Eq, Structural, Clone, Copy)]
pub enum RoutingConfidence {
    Scores { top_halves: u64, second_halves: u64, candidate_count: u64 },
    Recorded { bits: u64 },
}

#[derive(Clone)]
pub struct RoutingDecision {
    pub schema_version: u32,
    pub test_id: String,
    pub selected_context_id: Option<String>,
    pub selected_context_path: Option<String>,
    pub method: String,
    pub status: String,
    pub confidence: RoutingConfidence,
    pub candidates: Vec<RoutingCandidate>,
    pub llm_router_used: bool,
    pub input_tokens: u64,
    pub output_tokens: u64,
    pub latency_ms: u64,
    pub reason: Option<String>,
}

#[derive(Clone)]
pub struct BenchmarkResult {
    pub schema_version: u32,
    pub suite: Option<String>,
    pub token_count: Option<u64>,
    pub id: String,
    pub provider_model: Option<String>,
    pub provider_base_url: Option<String>,
    pub http_status: Option<u16>,
    pub request_id: Option<String>,
    pub rate_limit_remaining: Option<String>,
    pub rate_limit_reset: Option<String>,
    pub passed: bool,
    pub attempts: u32,
    pub latency_ms: u64,
    pub input_tokens: u64,
    pub output_tokens: u64,
    pub answer: Option<String>,
    pub error: Option<String>,
    pub error_kind: Option<ErrorKind>,
    pub routing: Option<RoutingDecision>,
    pub judge_latency_ms: Option<u64>,
    pub judge_input_tokens: Option<u64>,
    pub judge_output_tokens: Option<u64>,
    pub judge_http_status: Option<u16>,
    pub judge_attempts: Option<u32>,
    pub judge_error: Option<String>,
    pub metadata: Vec<(String, String)>,
}

#[derive(Clone)]
pub struct Config {
    pub schema_version: u32,
    pub run: RunConfig,
    pub provider: ProviderConfig,
    pub grader: GraderConfig,
}

#[derive(Clone)]
pub struct GraderConfig {
    pub judge_model: Option<String>,
}

impl Default for GraderConfig {
    fn default() -> (c: Self)
        ensures
            c.judge_model is None,
    {
        GraderConfig { judge_model: None }
    }
}

#[derive(Clone)]
pub struct RunMetadata {
    pub schema_version: u32,
    pub bench_dir: String,
    pub results_path: String,
    pub started_at_unix_ms: u64,
    pub finished_at_unix_ms: Option<u64>,
    pub duration_ms: Option<u64>,
    pub test_count: usize,
    pub provider_model: String,
    pub provider_base_url: String,
    pub provider_request_style: String,
    pub request_timeout_secs: u64,
    pub max_retries: u32,
    pub retry_backoff_ms: u64,
    pub concurrency: usize,
    pub log_requests: bool,
    pub request_log_path: Option<String>,
    pub suites: Vec<String>,
    /// The SHA-256 digest of each manifest, context file and context index
    /// the run read, by path relative to the benchmark directory.
    pub fingerprints: Vec<FileFingerprint>,
}

#[derive(Clone)]
pub struct FileFingerprint {
    pub path: String,
    pub sha256: String,
}

#[derive(Clone)]
pub struct RunConfig {
    pub request_timeout_secs: u64,
    pub max_retries: u32,
    pub retry_backoff_ms: u64,
    pub concurrency: usize,
    pub log_requests: bool,
    pub request_log_path: String,
}

impl Default for RunConfig {
    fn default() -> (c: Self)
        ensures
            c.request_timeout_secs == 120,
            c.max_retries == 2,
            c.retry_backoff_ms == 500,
            c.concurrency == 1,
            !c.log_requests,
            c.request_log_path@ == "reports/http-log.jsonl"@,
    {
        RunConfig {
            request_timeout_secs: default_request_timeout_secs(),
            max_retries: default_max_retries(),
            retry_backoff_ms: default_retry_backoff_ms(),
            concurrency: default_concurrency(),
            log_requests: false,
            request_log_path: default_request_log_path(),
        }
    }
}

#[derive(Clone)]
pub struct ProviderConfig {
    pub base_url: String,
    pub api_key_env: String,
    pub model: String,
    pub request_style: ProviderRequestStyle,
}

#[derive(PartialEq, Eq, Structural, Clone, Copy, Debug)]
pub enum ProviderRequestStyle {
    ChatCompletions,
    Responses,
}

impl ProviderRequestStyle {
    pub open spec fn as_str_spec(self) -> Seq<char> {
        match self {
            ProviderRequestStyle::ChatCompletions => "chat-completions"@,
            ProviderRequestStyle::Responses => "responses"@,
        }
    }

    pub fn as_str(self) -> (s: &'static str)
        ensures
            s@ == self.as_str_spec(),
    {
        match self {
            ProviderRequestStyle::ChatCompletions => "chat-completions",
            ProviderRequestStyle::Responses => "responses",
        }
    }
}

#[derive(Clone)]
pub struct SuiteManifest {
    pub schema_version: u32,
    pub name: String,
    pub token_count: u64,
    pub seed: u64,
    pub suites: Vec<TestCase>,
}

pub fn default_schema_version() -> (v: u32)
    ensures
        v == SCHEMA_VERSION,
{
    SCHEMA_VERSION
}

pub fn default_request_timeout_secs() -> (v: u64)
    ensures
        v == 120,
{
    120
}

pub fn default_max_retries() -> (v: u32)
    ensures
        v == 2,
{
    2
}

pub fn default_retry_backoff_ms() -> (v: u64)
    ensures
        v == 500,
{
    500
}

pub fn default_concurrency() -> (v: usize)
    ensures
        v == 1,
{
    1
}

pub fn default_request_log_path() -> (s: String)
    ensures
        s@ == "reports/http-log.jsonl"@,
{
    String::from_str("reports/http-log.jsonl")
}

pub fn default_provider_request_style() -> (s: ProviderRequestStyle)
    ensures
        s == ProviderRequestStyle::ChatCompletions,
{
    ProviderRequestStyle::ChatCompletions
}

// ---------------------------------------------------------------------------
// Metadata maps: vectors of key/value pairs with unique keys
// ---------------------------------------------------------------------------

pub open spec fn pairs_view(m: Seq<(String, String)>) -> Seq<(Seq<char>, Seq<char>)> {
    m.map_values(|p: (String, String)| (p.0@, p.1@))
}

/// No key occurs twice.
pub open spec fn keys_unique(m: Seq<(String, String)>) -> bool {
    forall|i: int, j: int| 0 <= i < j < m.len() ==> (#[trigger] m[i]).0@ != (#[trigger] m[j]).0@
}

/// The value stored under `key`, if any.
pub open spec fn meta_lookup(m: Seq<(String, String)>, key: Seq<char>) -> Option<Seq<char>>
    decreases m.len(),
{
    if m.len() == 0 {
        None
    } else if m[0].0@ == key {
        Some(m[0].1@)
    } else {
        meta_lookup(m.drop_first(), key)
    }
}

/// `BTreeMap::get` on a metadata vector: the value of the first pair whose
/// key equals `key`.
pub fn meta_get(m: &Vec<(String, String)>, key: &str) -> (r: Option<String>)
    ensures
        match r {
            Some(v) => meta_lookup(m@, key@) == Some(v@),
            None => meta_lookup(m@, key@) is None,
        },
{
    let k = chars_of(key);
    let mut i: usize = 0;
    assert(m@.skip(0) =~= m@);
    while i < m.len()
        invariant
            i <= m@.len(),
            k@ == key@,
            meta_lookup(m@, key@) == meta_lookup(m@.skip(i as int), key@),
        decreases m@.len() - i,
    {
        let kc = chars_of(m[i].0.as_str());
        assert(m@.skip(i as int)[0] == m@[i as int]);
        assert(m@.skip(i as int).drop_first() =~= m@.skip(i as int + 1));
        if slices_equal_chars(kc.as_slice(), k.as_slice()) {
            return Some(m[i].1.clone());
        }
        i = i + 1;
    }
    None
}

/// Equality of two strings by their characters.
pub fn str_eq(a: &str, b: &str) -> (r: bool)
    ensures
        r == (a@ == b@),
{
    let x = chars_of(a);
    let y = chars_of(b);
    slices_equal_chars(x.as_slice(), y.as_slice())
}

} // verus!
