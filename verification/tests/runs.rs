use longctx::benchmark::{
    BenchmarkResult, ErrorKind, Grader, ProviderConfig, ProviderRequestStyle, RoutingConfidence,
    RoutingDecision, TestCase, SCHEMA_VERSION,
};
use longctx::grader::LlmJudgeResult;
use longctx::hashing::sha256_hex_of_str;
use longctx::report::check_result_schema;
use longctx::runner::{
    build_prompt, context_source, graded_result, is_generated_json_artifact,
    logged_context_reference, request_log_entry, resolve_context_reference, select_tests,
    unsent_result, AttemptVerdict, ContextSource, ProviderFailure, ProviderOutput, RetryLoop,
    RetryPolicy, TestAction, TestPhase, TestRun,
};
use longctx::tokenizer::TokenCounter;

fn s(x: &str) -> String {
    x.to_string()
}

fn provider() -> ProviderConfig {
    ProviderConfig {
        base_url: s("https://api.example.test/v1"),
        api_key_env: s("EXAMPLE_API_KEY"),
        model: s("example-model"),
        request_style: ProviderRequestStyle::ChatCompletions,
    }
}

fn needle_test() -> TestCase {
    TestCase {
        schema_version: SCHEMA_VERSION,
        id: s("needle-100000"),
        context: s("contexts/needle_context.txt"),
        question: s("What is the archive access code?"),
        expected: vec![s("orchid-123")],
        grader: Grader::Exact,
        metadata: vec![(s("suite"), s("needle")), (s("token_count"), s("100000"))],
    }
}

fn output(answer: &str) -> ProviderOutput {
    ProviderOutput {
        answer: s(answer),
        attempts: 1,
        http_status: Some(200),
        request_id: Some(s("req-abc")),
        rate_limit_remaining: None,
        rate_limit_reset: None,
        input_tokens: 12,
        output_tokens: 4,
    }
}

fn ambiguous_decision(test_id: &str) -> RoutingDecision {
    RoutingDecision {
        schema_version: SCHEMA_VERSION,
        test_id: s(test_id),
        selected_context_id: None,
        selected_context_path: None,
        method: s("none"),
        status: s("ambiguous"),
        confidence: RoutingConfidence::Scores { top_halves: 0, second_halves: 0, candidate_count: 0 },
        candidates: vec![],
        llm_router_used: false,
        input_tokens: 0,
        output_tokens: 0,
        latency_ms: 0,
        reason: Some(s("local_router_confidence_below_threshold")),
    }
}

#[test]
fn request_logs_are_redacted_and_include_request_ids() {
    let test = needle_test();
    let result = graded_result(&test, &provider(), output("orchid-123"), None, None, 9);
    assert!(result.passed);
    let context = logged_context_reference(&test, &result).unwrap();
    assert_eq!(context, "contexts/needle_context.txt");
    let file_text = "secret code orchid-123";
    let entry = request_log_entry(&test, &result, Some(file_text), 77);
    assert_eq!(entry.request_id.as_deref(), Some("req-abc"));
    assert_eq!(entry.logged_at_unix_ms, 77);
    let expected_request = sha256_hex_of_str(&build_prompt(file_text, &test.question));
    assert_eq!(entry.request_sha256.as_deref(), Some(expected_request.as_str()));
    assert_eq!(entry.response_sha256.as_deref(), Some(sha256_hex_of_str("orchid-123").as_str()));
    for field in [&entry.id, entry.request_sha256.as_ref().unwrap(), entry.response_sha256.as_ref().unwrap()] {
        assert!(!field.contains("archive access code"));
        assert!(!field.contains("orchid-123"));
    }
}

#[test]
fn request_logs_do_not_hash_unsent_context_route_failures() {
    let mut test = needle_test();
    test.id = s("auto-1");
    test.context = s("auto");
    let result = unsent_result(
        &test,
        &provider(),
        ErrorKind::ContextRoute,
        s("context routing failed"),
        Some(ambiguous_decision("auto-1")),
        1,
    );
    assert_eq!(result.attempts, 0);
    let context = logged_context_reference(&test, &result);
    assert!(context.is_none());
    let entry = request_log_entry(&test, &result, None, 1);
    assert_eq!(entry.routing_status.as_deref(), Some("ambiguous"));
    assert_eq!(entry.routing_reason.as_deref(), Some("local_router_confidence_below_threshold"));
    assert!(entry.request_sha256.is_none());
    assert_eq!(entry.response_sha256.as_deref(), Some(sha256_hex_of_str("context routing failed").as_str()));
}

#[test]
fn failed_answers_are_validation_errors_and_judge_failures_judge_errors() {
    let test = needle_test();
    let r = graded_result(&test, &provider(), output("wrong"), None, None, 3);
    assert!(!r.passed);
    assert_eq!(r.error.as_deref(), Some("answer did not satisfy grader"));
    assert!(matches!(r.error_kind, Some(ErrorKind::Validation)));
    assert_eq!(r.suite.as_deref(), Some("needle"));
    assert_eq!(r.token_count, Some(100000));

    let mut judged = needle_test();
    judged.grader = Grader::LlmJudge;
    let judge = LlmJudgeResult {
        passed: false,
        latency_ms: 5,
        input_tokens: 10,
        output_tokens: 0,
        http_status: Some(500),
        attempts: 3,
        error: Some(s("HTTP 500 Internal Server Error from judge: boom")),
    };
    let r = graded_result(&judged, &provider(), output("orchid-123"), Some(judge), None, 3);
    assert!(!r.passed);
    assert!(matches!(r.error_kind, Some(ErrorKind::Judge)));
    assert_eq!(r.error.as_deref(), Some("LLM judge failed: HTTP 500 Internal Server Error from judge: boom"));
    assert_eq!(r.judge_attempts, Some(3));
    assert_eq!(r.judge_http_status, Some(500));
}

#[test]
fn retry_loop_retries_transient_failures_until_the_budget_is_spent() {
    let mut l = RetryLoop::new(RetryPolicy::Provider, 2, 100);
    assert_eq!(l.max_attempts, 3);
    assert_eq!(l.begin_attempt(), 1);
    assert_eq!(l.after_status(200), AttemptVerdict::Accept);
    assert_eq!(l.after_status(503), AttemptVerdict::Retry { delay_ms: 100 });
    assert_eq!(l.after_status(400), AttemptVerdict::GiveUp);
    assert_eq!(l.begin_attempt(), 2);
    assert_eq!(l.after_transport_error(true), AttemptVerdict::Retry { delay_ms: 200 });
    assert_eq!(l.after_transport_error(false), AttemptVerdict::GiveUp);
    assert_eq!(l.begin_attempt(), 3);
    assert_eq!(l.after_status(503), AttemptVerdict::GiveUp);
    let mut once = RetryLoop::new(RetryPolicy::Judge, 0, 100);
    once.begin_attempt();
    assert_eq!(once.after_status(429), AttemptVerdict::GiveUp);
}

#[test]
fn auto_context_without_an_index_is_refused() {
    let mut test = needle_test();
    test.context = s("auto");
    let (msg, decision) = resolve_context_reference(&test, None).err().unwrap();
    assert_eq!(msg, "context routing requested but context index is unavailable");
    assert!(decision.is_none());
    let (path, decision) = resolve_context_reference(&needle_test(), None).ok().unwrap();
    assert_eq!(path, "contexts/needle_context.txt");
    assert!(decision.is_none());
}

#[test]
fn context_files_are_looked_up_in_order() {
    assert_eq!(context_source(true, true, true, true), ContextSource::Absolute);
    assert_eq!(context_source(true, false, true, true), ContextSource::UnderBenchDir);
    assert_eq!(context_source(false, false, false, true), ContextSource::AsGiven);
    assert_eq!(context_source(false, false, false, false), ContextSource::Inline);
}

#[test]
fn test_selection_applies_filter_then_limit() {
    let mut a = needle_test();
    a.id = s("needle-1");
    let mut b = needle_test();
    b.id = s("conflict-1");
    b.metadata = vec![(s("suite"), s("conflict"))];
    let mut c = needle_test();
    c.id = s("needle-2");
    let tests = vec![a, b, c];
    assert_eq!(select_tests(&tests, &None, None), vec![0, 1, 2]);
    assert_eq!(select_tests(&tests, &Some(s("needle")), None), vec![0, 2]);
    assert_eq!(select_tests(&tests, &Some(s("conflict")), None), vec![1]);
    assert_eq!(select_tests(&tests, &Some(s("needle")), Some(1)), vec![0]);
    assert_eq!(select_tests(&tests, &None, Some(0)), Vec::<usize>::new());
}

#[test]
fn generated_artifacts_are_not_test_files() {
    assert!(is_generated_json_artifact(Some("context.index.json")));
    assert!(is_generated_json_artifact(Some("results.json")));
    assert!(is_generated_json_artifact(Some("run.json")));
    assert!(!is_generated_json_artifact(Some("needle.json")));
    assert!(!is_generated_json_artifact(None));
}

fn plain_result(schema_version: u32, routing: Option<RoutingDecision>) -> BenchmarkResult {
    let mut r = unsent_result(&needle_test(), &provider(), ErrorKind::Transport, s("x"), routing, 0);
    r.schema_version = schema_version;
    r
}

#[test]
fn report_rejects_newer_result_schema_version() {
    let err = check_result_schema(&plain_result(SCHEMA_VERSION + 1, None), 1).unwrap_err();
    assert_eq!(
        err,
        format!(
            "results file schema_version {} on line 1 is newer than supported schema_version {}",
            SCHEMA_VERSION + 1,
            SCHEMA_VERSION
        )
    );
    assert!(check_result_schema(&plain_result(SCHEMA_VERSION, None), 1).is_ok());
}

#[test]
fn report_rejects_newer_routing_schema_version() {
    let mut d = ambiguous_decision("needle-100000");
    d.schema_version = SCHEMA_VERSION + 1;
    let err = check_result_schema(&plain_result(SCHEMA_VERSION, Some(d)), 3).unwrap_err();
    assert!(err.starts_with("routing schema_version"));
    assert!(err.contains("on line 3"));
}

#[test]
fn a_test_run_reads_sends_and_records() {
    let counter = TokenCounter::cl100k().unwrap();
    let (mut run, action) = TestRun::start(needle_test(), provider(), None, 1);
    assert_eq!(run.phase, TestPhase::ReadingContext);
    let reference = match action {
        TestAction::ReadContext { reference } => reference,
        _ => panic!("expected a context read"),
    };
    assert_eq!(reference, "contexts/needle_context.txt");
    let action = run.context_read(s("the code is orchid-123"), &counter);
    let (prompt, tokens) = match action {
        TestAction::CallProvider { prompt, input_tokens } => (prompt, input_tokens),
        _ => panic!("expected a provider call"),
    };
    assert_eq!(prompt, build_prompt("the code is orchid-123", "What is the archive access code?"));
    assert_eq!(Some(tokens), counter.count_tokens(&prompt));
    assert_eq!(run.phase, TestPhase::CallingProvider);
    match run.provider_done(Ok(output("orchid-123")), 42) {
        TestAction::Record { result } => {
            assert!(result.passed);
            assert_eq!(result.latency_ms, 42);
            assert_eq!(result.answer.as_deref(), Some("orchid-123"));
        }
        _ => panic!("expected a recorded result"),
    }
    assert_eq!(run.phase, TestPhase::Finished);
}

#[test]
fn a_judged_test_asks_the_judge_before_recording() {
    let mut test = needle_test();
    test.grader = Grader::LlmJudge;
    let (mut run, _) = TestRun::start(test, provider(), None, 0);
    let counter = TokenCounter::cl100k().unwrap();
    run.context_read(s("ctx"), &counter);
    match run.provider_done(Ok(output("maybe")), 5) {
        TestAction::CallJudge { answer, context } => {
            assert_eq!(answer, "maybe");
            assert_eq!(context, "ctx");
        }
        _ => panic!("expected a judge call"),
    }
    let judge = LlmJudgeResult {
        passed: true,
        latency_ms: 7,
        input_tokens: 3,
        output_tokens: 1,
        http_status: Some(200),
        attempts: 1,
        error: None,
    };
    match run.judge_done(judge, 9) {
        TestAction::Record { result } => {
            assert!(result.passed);
            assert_eq!(result.judge_latency_ms, Some(7));
            assert_eq!(result.latency_ms, 9);
        }
        _ => panic!("expected a recorded result"),
    }
}

#[test]
fn a_test_run_records_failures_without_sending() {
    let mut test = needle_test();
    test.context = s("auto");
    let (run, action) = TestRun::start(test, provider(), None, 3);
    assert_eq!(run.phase, TestPhase::Finished);
    match action {
        TestAction::Record { result } => {
            assert_eq!(result.attempts, 0);
            assert!(matches!(result.error_kind, Some(ErrorKind::ContextRoute)));
            assert_eq!(result.latency_ms, 3);
        }
        _ => panic!("expected a recorded result"),
    }
    let (mut run, _) = TestRun::start(needle_test(), provider(), None, 0);
    match run.context_failed(s("failed to read context x")) {
        TestAction::Record { result } => {
            assert!(matches!(result.error_kind, Some(ErrorKind::ContextLoad)));
            assert_eq!(result.error.as_deref(), Some("failed to read context x"));
        }
        _ => panic!("expected a recorded result"),
    }
    let (mut run, _) = TestRun::start(needle_test(), provider(), None, 0);
    let counter = TokenCounter::cl100k().unwrap();
    run.context_read(s("ctx"), &counter);
    let failure = ProviderFailure {
        error: s("HTTP 500 Internal Server Error from provider: boom"),
        attempts: 3,
        kind: ErrorKind::Http,
        http_status: Some(500),
        request_id: None,
        rate_limit_remaining: None,
        rate_limit_reset: None,
    };
    match run.provider_done(Err(failure), 11) {
        TestAction::Record { result } => {
            assert!(!result.passed);
            assert_eq!(result.attempts, 3);
            assert_eq!(result.http_status, Some(500));
            assert!(matches!(result.error_kind, Some(ErrorKind::Http)));
        }
        _ => panic!("expected a recorded result"),
    }
}

#[test]
fn token_counts_come_from_the_encoding() {
    let cl = TokenCounter::cl100k().unwrap();
    assert_eq!(cl.count_tokens("hello world"), Some(2));
    assert_eq!(cl.count_tokens(""), Some(0));
    let o2 = TokenCounter::o200k().unwrap();
    assert_eq!(o2.count_tokens("hello world"), Some(2));
}
