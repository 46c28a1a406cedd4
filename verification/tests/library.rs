use longctx::benchmark::{
    BenchmarkResult, Config, ErrorKind, Grader, GraderConfig, ProviderConfig,
    ProviderRequestStyle, RoutingConfidence, RunConfig, TestCase, SCHEMA_VERSION,
};
use longctx::compare::{average_delta, comparison_html, ComparisonSummary};
use longctx::context_index::{keywords_for_test, route_context, ContextIndex, ContextIndexEntry};
use longctx::probe::{midpoint_token, validate_probe_options, ProbeOptions};
use longctx::report::failure_group;
use longctx::runner::{
    build_prompt, build_run_metadata, ensure_output_paths_can_be_written, is_retryable_status,
    provider_rate_limit, provider_request_id, responses_answer, retry_delay, OutputPath,
    ResponsesContentItem, ResponsesOutputItem, ResponsesResponse,
};
use longctx::score::ScoreProfile;
use reqwest::StatusCode;
use std::time::Duration;

fn s(x: &str) -> String {
    x.to_string()
}

/// The router's confidence as a fraction, from the half-point scores it
/// records: the margin over the runner-up or the size of the top score.
fn confidence(c: RoutingConfidence) -> f64 {
    match c {
        RoutingConfidence::Scores { top_halves, second_halves, candidate_count } => {
            let top = top_halves as f64 / 2.0;
            let second = second_halves as f64 / 2.0;
            if top <= 0.0 {
                return 0.0;
            }
            if candidate_count <= 1 {
                return 1.0;
            }
            let margin = (top - second).max(0.0);
            let margin_factor = (margin / top.max(1.0)).clamp(0.0, 1.0);
            let score_factor = (top / 8.0).clamp(0.0, 1.0);
            (0.35 + (0.65 * margin_factor.max(score_factor))).clamp(0.0, 1.0)
        }
        RoutingConfidence::Recorded { bits } => f64::from_bits(bits),
    }
}

#[test]
fn grader_config_default_has_no_judge_model() {
    let config = GraderConfig::default();
    assert!(config.judge_model.is_none());
}

#[test]
fn comparison_html_includes_summary() {
    let summary = ComparisonSummary {
        baseline_total: 2,
        candidate_total: 3,
        common_total: 1,
        improved_ids: vec![s("a")],
        regressed_ids: vec![s("b")],
        added_ids: vec![s("c")],
        removed_ids: vec![s("d")],
        avg_latency_delta_ms: 5,
        avg_input_tokens_delta: -1,
        avg_output_tokens_delta: 2,
    };
    let html = comparison_html(&summary);
    assert!(html.contains("Long Context Comparison Report"));
    assert!(html.contains("Improved IDs"));
    assert!(html.contains("Candidate total"));
    assert!(html.contains("a"));
}

#[test]
fn comparison_html_with_empty_lists() {
    let summary = ComparisonSummary {
        baseline_total: 0,
        candidate_total: 0,
        common_total: 0,
        improved_ids: vec![],
        regressed_ids: vec![],
        added_ids: vec![],
        removed_ids: vec![],
        avg_latency_delta_ms: 0,
        avg_input_tokens_delta: 0,
        avg_output_tokens_delta: 0,
    };
    let html = comparison_html(&summary);
    assert!(html.contains("none"));
}

#[test]
fn average_delta_returns_zero_for_empty() {
    assert_eq!(average_delta(0, 0), 0);
}

fn entry(id: &str, path: &str, suite: &str, title: &str, summary: &str, keywords: &[&str]) -> ContextIndexEntry {
    ContextIndexEntry {
        context_id: s(id),
        path: s(path),
        sha256: s("hash"),
        suite: s(suite),
        token_count: 100,
        seed: 7,
        source_manifests: vec![],
        test_ids: vec![],
        title: s(title),
        summary: s(summary),
        keywords: keywords.iter().map(|k| s(k)).collect(),
        safe_anchors: vec![],
        metadata: Vec::new(),
    }
}

#[test]
fn routes_auto_context_by_metadata_and_keywords() {
    let index = ContextIndex {
        schema_version: SCHEMA_VERSION,
        bench_id: s("bench"),
        created_at_unix_ms: 1,
        contexts: vec![
            entry("needle_context", "contexts/needle_context.txt", "needle", "Needle context", "Needle", &["archive", "access", "code"]),
            entry("conflict_context", "contexts/conflict_context.txt", "conflict", "Conflict context", "Conflict", &["routing", "audit", "key"]),
        ],
    };
    let test = TestCase {
        schema_version: SCHEMA_VERSION,
        id: s("needle-100"),
        context: s("auto"),
        question: s("What is the archive access code?"),
        expected: vec![s("ORCHID-1")],
        grader: Grader::Exact,
        metadata: vec![(s("suite"), s("needle")), (s("token_count"), s("100"))],
    };
    let decision = route_context(&test, &index);
    assert_eq!(decision.status, "selected");
    assert_eq!(decision.selected_context_path.as_deref(), Some("contexts/needle_context.txt"));
    assert!(confidence(decision.confidence) >= 0.55);
}

#[test]
fn context_index_does_not_use_answer_like_metadata_for_routing() {
    let test = TestCase {
        schema_version: SCHEMA_VERSION,
        id: s("needle-100"),
        context: s("auto"),
        question: s("What is the archive access code?"),
        expected: vec![s("ORCHID-1")],
        grader: Grader::Exact,
        metadata: vec![
            (s("expected_answer"), s("ORCHID-1")),
            (s("scope"), s("east audit")),
            (s("secret_code"), s("PINE-9")),
            (s("suite"), s("needle")),
        ],
    };
    let keywords = keywords_for_test("needle", "needle", &test);
    assert!(!keywords.contains(&s("orchid")));
    assert!(!keywords.contains(&s("pine")));
    assert!(keywords.contains(&s("east")));
}

#[test]
fn router_rejects_a_tie_between_the_top_candidates() {
    let index = ContextIndex {
        schema_version: SCHEMA_VERSION,
        bench_id: s("bench"),
        created_at_unix_ms: 1,
        contexts: vec![
            entry("alpha", "contexts/alpha.txt", "needle", "a", "a", &["archive"]),
            entry("beta", "contexts/beta.txt", "needle", "b", "b", &["archive"]),
        ],
    };
    let test = TestCase {
        schema_version: SCHEMA_VERSION,
        id: s("q-1"),
        context: s("auto"),
        question: s("archive?"),
        expected: vec![s("x")],
        grader: Grader::Exact,
        metadata: vec![(s("suite"), s("needle"))],
    };
    let decision = route_context(&test, &index);
    assert_eq!(decision.status, "ambiguous");
    assert!(decision.selected_context_path.is_none());
    assert_eq!(decision.candidates.len(), 2);
    assert_eq!(decision.candidates[0].context_id, "alpha");
}

#[test]
fn empty_index_routes_nothing() {
    let index = ContextIndex {
        schema_version: SCHEMA_VERSION,
        bench_id: s("bench"),
        created_at_unix_ms: 1,
        contexts: vec![],
    };
    let test = TestCase {
        schema_version: SCHEMA_VERSION,
        id: s("q-1"),
        context: s("auto"),
        question: s("q"),
        expected: vec![s("x")],
        grader: Grader::Exact,
        metadata: vec![],
    };
    let decision = route_context(&test, &index);
    assert_eq!(decision.status, "error");
    assert_eq!(decision.reason.as_deref(), Some("empty_context_index"));
}

#[test]
fn midpoint_respects_resolution() {
    assert_eq!(midpoint_token(256_000, 512_000, 8_000), Some(384_000));
    assert_eq!(midpoint_token(256_000, 272_000, 8_000), Some(264_000));
    assert_eq!(midpoint_token(264_000, 272_000, 8_000), None);
}

#[test]
fn invalid_probe_options_are_rejected() {
    let options = ProbeOptions {
        min_tokens: 0,
        max_tokens: 1,
        resolution_tokens: 1,
        seed: 42,
        config_path: None,
        capability_tokens: None,
    };
    assert!(validate_probe_options(&options).is_err());
}

fn bare_result() -> BenchmarkResult {
    BenchmarkResult {
        schema_version: 1,
        suite: None,
        token_count: None,
        id: s("test"),
        provider_model: None,
        provider_base_url: None,
        http_status: None,
        request_id: None,
        rate_limit_remaining: None,
        rate_limit_reset: None,
        passed: false,
        attempts: 1,
        latency_ms: 0,
        input_tokens: 0,
        output_tokens: 0,
        answer: None,
        error: None,
        error_kind: Some(ErrorKind::Http),
        routing: None,
        judge_latency_ms: None,
        judge_input_tokens: None,
        judge_output_tokens: None,
        judge_http_status: None,
        judge_attempts: None,
        judge_error: None,
        metadata: Vec::new(),
    }
}

#[test]
fn failure_group_classifies_by_error_kind() {
    let mut result = bare_result();
    assert_eq!(failure_group(&result), "Http");
    result.error_kind = Some(ErrorKind::Transport);
    assert_eq!(failure_group(&result), "Transport");
    result.error_kind = None;
    assert_eq!(failure_group(&result), "Grading");
    result.passed = true;
    assert_eq!(failure_group(&result), "Pass");
}

#[test]
fn responses_answer_prefers_output_text_and_falls_back_to_output_items() {
    let direct = ResponsesResponse {
        output_text: Some(s(" direct answer ")),
        output: Vec::new(),
        usage: None,
    };
    assert_eq!(responses_answer(&direct), "direct answer");

    let fallback = ResponsesResponse {
        output_text: None,
        output: vec![ResponsesOutputItem {
            content: vec![ResponsesContentItem {
                kind: Some(s("output_text")),
                text: Some(s(" fallback answer ")),
            }],
        }],
        usage: None,
    };
    assert_eq!(responses_answer(&fallback), "fallback answer");
}

#[test]
fn retry_delay_exponentiates() {
    let run = RunConfig { retry_backoff_ms: 100, ..Default::default() };
    assert_eq!(retry_delay(&run, 1), Duration::from_millis(100));
    assert_eq!(retry_delay(&run, 2), Duration::from_millis(200));
    assert_eq!(retry_delay(&run, 3), Duration::from_millis(400));
}

#[test]
fn retry_delay_saturates_at_max() {
    let run = RunConfig { retry_backoff_ms: 100, ..Default::default() };
    let delay = retry_delay(&run, 20);
    assert_eq!(delay, Duration::from_millis(100 * 1024));
}

#[test]
fn retry_delay_saturates_at_u64_max() {
    let run = RunConfig { retry_backoff_ms: u64::MAX / 2, ..Default::default() };
    assert_eq!(retry_delay(&run, 5), Duration::from_millis(u64::MAX));
}

#[test]
fn is_retryable_status_classifies_correctly() {
    assert!(is_retryable_status(StatusCode::TOO_MANY_REQUESTS.as_u16()));
    assert!(is_retryable_status(StatusCode::SERVICE_UNAVAILABLE.as_u16()));
    assert!(is_retryable_status(StatusCode::BAD_GATEWAY.as_u16()));
    assert!(is_retryable_status(StatusCode::REQUEST_TIMEOUT.as_u16()));
    assert!(is_retryable_status(StatusCode::GATEWAY_TIMEOUT.as_u16()));
    assert!(is_retryable_status(StatusCode::INTERNAL_SERVER_ERROR.as_u16()));
    assert!(!is_retryable_status(StatusCode::OK.as_u16()));
    assert!(!is_retryable_status(StatusCode::BAD_REQUEST.as_u16()));
    assert!(!is_retryable_status(StatusCode::UNAUTHORIZED.as_u16()));
}

#[test]
fn build_prompt_formats_correctly() {
    let prompt = build_prompt("some context", "some question");
    assert!(prompt.contains("some context"));
    assert!(prompt.contains("some question"));
    assert!(prompt.starts_with("Use the context"));
}

#[test]
fn build_prompt_lays_out_every_section() {
    assert_eq!(
        build_prompt("C", "Q"),
        "Use the context to answer the question.\n\nContext:\nC\n\nQuestion:\nQ\n\nAnswer:"
    );
}

#[test]
fn profile_names_parse() {
    assert_eq!(ScoreProfile::parse("quick").unwrap(), ScoreProfile::Quick);
    assert_eq!(ScoreProfile::parse("max_context").unwrap(), ScoreProfile::MaxContext);
    assert!(ScoreProfile::parse("unknown").is_err());
}

#[test]
fn unknown_profile_names_the_lowercased_input() {
    let error = ScoreProfile::parse("Fast").unwrap_err();
    assert_eq!(error, "unknown score profile 'fast', expected quick, standard, deep, or max-context");
}

#[test]
fn build_run_metadata_captures_snapshot() {
    let bench_dir = tempfile::tempdir().unwrap();
    let results_path = bench_dir.path().join("results.jsonl");
    let config = Config {
        schema_version: SCHEMA_VERSION,
        run: RunConfig {
            request_timeout_secs: 30,
            max_retries: 3,
            retry_backoff_ms: 250,
            concurrency: 4,
            log_requests: true,
            request_log_path: s("reports/http-log.jsonl"),
        },
        provider: ProviderConfig {
            base_url: s("https://api.example.test/v1"),
            api_key_env: s("EXAMPLE_API_KEY"),
            model: s("example-model"),
            request_style: ProviderRequestStyle::ChatCompletions,
        },
        grader: GraderConfig::default(),
    };
    let tests = vec![TestCase {
        schema_version: SCHEMA_VERSION,
        id: s("needle-100"),
        context: s("contexts/needle_context.txt"),
        question: s("q"),
        expected: vec![s("a")],
        grader: Grader::Exact,
        metadata: vec![(s("suite"), s("needle"))],
    }];
    let snapshot = build_run_metadata(
        bench_dir.path().to_str().unwrap(),
        results_path.to_str().unwrap(),
        1234,
        &config,
        &tests,
    );
    assert_eq!(snapshot.schema_version, SCHEMA_VERSION);
    assert_eq!(snapshot.test_count, 1);
    assert_eq!(snapshot.provider_model, "example-model");
    assert_eq!(snapshot.provider_request_style, "chat-completions");
    assert_eq!(snapshot.concurrency, 4);
    assert!(snapshot.log_requests);
    assert_eq!(snapshot.request_log_path, Some(s("reports/http-log.jsonl")));
    assert_eq!(snapshot.suites, vec!["needle"]);
    assert_eq!(snapshot.finished_at_unix_ms, None);
}

#[test]
fn provider_headers_capture_request_and_rate_limit_metadata() {
    let headers = vec![
        (s("x-request-id"), Some(s("req_123"))),
        (s("x-ratelimit-remaining"), Some(s("42"))),
        (s("x-ratelimit-reset"), Some(s("1s"))),
    ];
    assert_eq!(provider_request_id(&headers), Some(s("req_123")));
    assert_eq!(provider_rate_limit(&headers, "x-ratelimit-remaining"), Some(s("42")));
    assert_eq!(provider_rate_limit(&headers, "x-ratelimit-reset"), Some(s("1s")));
}

#[test]
fn run_output_guard_rejects_existing_results_without_force() {
    let results = OutputPath { path: s("results.jsonl"), exists: true };
    let snapshot = OutputPath { path: s("run.json"), exists: false };
    let error = ensure_output_paths_can_be_written(&results, &snapshot, None, false).unwrap_err();
    assert!(error.contains("refusing to overwrite"));
    ensure_output_paths_can_be_written(&results, &snapshot, None, true).unwrap();
}

fn probe_attempt(tokens: u64, passed: bool) -> longctx::probe::ProbeAttemptSummary {
    longctx::probe::ProbeAttemptSummary {
        token_count: tokens,
        bench_dir: format!("/p/{tokens}"),
        passed,
        http_status: Some(200),
        error_kind: None,
        attempts: 1,
        latency_ms: 1,
        input_tokens: tokens,
        output_tokens: 1,
        answer: None,
        error: None,
    }
}

fn drive_probe(min: u64, max: u64, res: u64, limit: u64) -> longctx::probe::ProbeSearch {
    let options = ProbeOptions {
        min_tokens: min,
        max_tokens: max,
        resolution_tokens: res,
        seed: 1,
        config_path: None,
        capability_tokens: None,
    };
    let mut search = longctx::probe::ProbeSearch::start(&options);
    while let Some(t) = search.next {
        search.record(probe_attempt(t, t <= limit));
    }
    search
}

#[test]
fn finished_probe_ends_within_the_resolution() {
    let s = drive_probe(8000, 64000, 8000, 50000);
    let b = s.best_success.as_ref().unwrap().token_count;
    let f = s.first_failure.as_ref().unwrap().token_count;
    assert_eq!((b, f), (48000, 56000));
    assert!(f - b <= 8000);
    assert!(s.attempts.iter().all(|a| a.token_count >= 8000 && a.token_count <= 64000));
}

#[test]
fn finished_probe_ends_at_the_cap_or_the_start() {
    let all_pass = drive_probe(8000, 64000, 8000, u64::MAX);
    assert_eq!(all_pass.best_success.as_ref().unwrap().token_count, 64000);
    assert!(all_pass.first_failure.is_none());
    let none_pass = drive_probe(8000, 64000, 8000, 0);
    assert!(none_pass.best_success.is_none());
    assert_eq!(none_pass.first_failure.as_ref().unwrap().token_count, 8000);
}
