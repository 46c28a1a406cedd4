use longctx::benchmark::{
    Config, Grader, GraderConfig, ProviderConfig, ProviderRequestStyle, RunConfig, TestCase,
    SCHEMA_VERSION,
};
use longctx::validator::{
    check_bench_dir, resolve_context_path, validate_benchmark_dir, LoadedBenchmark, validate_config, validate_provider_base_url,
    validate_request_log_path, validate_test, validate_unique_test_ids,
};

fn s(x: &str) -> String {
    x.to_string()
}

fn config(base_url: &str, model: &str) -> Config {
    Config {
        schema_version: SCHEMA_VERSION,
        run: RunConfig::default(),
        provider: ProviderConfig {
            base_url: s(base_url),
            api_key_env: s("EXAMPLE_API_KEY"),
            model: s(model),
            request_style: ProviderRequestStyle::ChatCompletions,
        },
        grader: GraderConfig::default(),
    }
}

fn needle_test(id: &str) -> TestCase {
    TestCase {
        schema_version: SCHEMA_VERSION,
        id: s(id),
        context: s("contexts/needle_context.txt"),
        question: s("q"),
        expected: vec![s("a")],
        grader: Grader::Exact,
        metadata: vec![(s("suite"), s("needle"))],
    }
}

fn validate(config: &Config, tests: &Vec<TestCase>) -> Result<longctx::validator::ValidationSummary, String> {
    let context_errors: Vec<Option<String>> = tests.iter().map(|_| None).collect();
    let loaded = LoadedBenchmark { config: config.clone(), tests: tests.clone(), context_errors };
    validate_benchmark_dir("/bench", Some(&loaded), false, false)
}

#[test]
fn validate_accepts_generated_layout() {
    let summary = validate(&config("https://api.example.test/v1", "example-model"), &vec![needle_test("needle-100")]).unwrap();
    assert_eq!(summary.test_count, 1);
    assert_eq!(summary.config_model, "example-model");
    assert!(!summary.api_key_checked);
}

#[test]
fn validate_rejects_missing_context_file() {
    let tests = vec![needle_test("needle-100")];
    let errors = vec![Some(s("context does not resolve to a file: contexts/needle_context.txt"))];
    let loaded = LoadedBenchmark {
        config: config("https://api.example.test/v1", "example-model"),
        tests: tests.clone(),
        context_errors: errors,
    };
    let error = validate_benchmark_dir("/bench", Some(&loaded), false, false).unwrap_err();
    assert!(error.contains("context does not resolve"));
    assert_eq!(
        error,
        "test needle-100 context is invalid: context does not resolve to a file: contexts/needle_context.txt"
    );
}

#[test]
fn validate_rejects_nonexistent_benchmark_dir() {
    let error = check_bench_dir("/nonexistent/path/12345", std::path::Path::new("/nonexistent/path/12345").is_dir()).unwrap_err();
    assert!(error.contains("does not exist"));
    let error = validate_benchmark_dir("/nonexistent/path/12345", None, false, false).unwrap_err();
    assert_eq!(error, "benchmark directory does not exist: /nonexistent/path/12345");
}

#[test]
fn validation_reports_config_then_duplicates_then_tests() {
    let tests = vec![needle_test("duplicate"), needle_test("duplicate")];
    let errors = vec![None, Some(s("context does not resolve to a file: x"))];
    let bad_config = LoadedBenchmark { config: config("", "m"), tests: tests.clone(), context_errors: errors.clone() };
    let e = validate_benchmark_dir("/bench", Some(&bad_config), false, false).unwrap_err();
    assert_eq!(e, validate_config(&config("", "m"), false, false).unwrap_err());
    let dup = LoadedBenchmark {
        config: config("https://api.example.test/v1", "m"),
        tests: tests.clone(),
        context_errors: errors.clone(),
    };
    assert_eq!(validate_benchmark_dir("/bench", Some(&dup), false, false).unwrap_err(), "duplicate test id: duplicate");
    let unique = LoadedBenchmark {
        config: config("https://api.example.test/v1", "m"),
        tests: vec![needle_test("a"), needle_test("b")],
        context_errors: errors,
    };
    assert_eq!(
        validate_benchmark_dir("/bench", Some(&unique), false, false).unwrap_err(),
        "test b context is invalid: context does not resolve to a file: x"
    );
}

#[test]
fn validate_rejects_empty_base_url() {
    let error = validate(&config("", "example-model"), &vec![needle_test("t")]).unwrap_err();
    assert!(error.contains("base_url"));
}

#[test]
fn validate_rejects_invalid_base_url() {
    let error = validate(&config("api.example.test/v1", "example-model"), &vec![needle_test("t")]).unwrap_err();
    assert!(error.contains("absolute http(s) URL"));
}

#[test]
fn validate_rejects_base_url_with_query_or_fragment() {
    let error = validate(&config("https://api.example.test/v1?debug=true", "example-model"), &vec![needle_test("t")]).unwrap_err();
    assert!(error.contains("query strings or fragments"));
    let error = validate_provider_base_url("https://api.example.test/v1#frag").unwrap_err();
    assert!(error.contains("query strings or fragments"));
}

#[test]
fn validate_rejects_empty_model() {
    let error = validate(&config("https://api.example.test/v1", ""), &vec![needle_test("t")]).unwrap_err();
    assert!(error.contains("model"));
}

#[test]
fn validate_rejects_zero_timeout() {
    let mut c = config("https://api.example.test/v1", "example-model");
    c.run.request_timeout_secs = 0;
    let error = validate(&c, &vec![needle_test("t")]).unwrap_err();
    assert!(error.contains("request_timeout_secs"));
}

#[test]
fn validate_rejects_zero_concurrency() {
    let mut c = config("https://api.example.test/v1", "example-model");
    c.run.concurrency = 0;
    let error = validate(&c, &vec![needle_test("t")]).unwrap_err();
    assert!(error.contains("concurrency"));
}

#[test]
fn validate_rejects_duplicate_test_ids() {
    let tests = vec![needle_test("duplicate"), needle_test("duplicate")];
    let error = validate(&config("https://api.example.test/v1", "example-model"), &tests).unwrap_err();
    assert!(error.contains("duplicate test id"));
    assert_eq!(validate_unique_test_ids(&tests).unwrap_err(), "duplicate test id: duplicate");
}

#[test]
fn validate_rejects_request_log_path_outside_reports() {
    let mut c = config("https://api.example.test/v1", "example-model");
    c.run.request_log_path = s("../http-log.jsonl");
    let error = validate(&c, &vec![needle_test("t")]).unwrap_err();
    assert!(error.contains("request_log_path"));
    assert!(validate_request_log_path("reports/http-log.jsonl").is_ok());
    assert!(validate_request_log_path("/tmp/log.jsonl").is_err());
    assert!(validate_request_log_path("reports/../../x.jsonl").is_err());
}

#[test]
fn validate_accepts_expect_refusal_without_expected_answers() {
    let mut t = needle_test("hallucination-100");
    t.expected = vec![];
    t.grader = Grader::ExpectRefusal;
    t.question = s("What is the missing code?");
    let summary = validate(&config("https://api.example.test/v1", "example-model"), &vec![t]).unwrap();
    assert_eq!(summary.test_count, 1);
}

#[test]
fn validate_rejects_exact_test_without_expected_answers() {
    let mut t = needle_test("needle-100");
    t.expected = vec![];
    assert!(validate_test(&t, None).is_err());
    assert!(validate_test(&needle_test("needle-100"), None).is_ok());
}

#[test]
fn validate_rejects_empty_benchmark() {
    let error = validate(&config("https://api.example.test/v1", "example-model"), &vec![]).unwrap_err();
    assert_eq!(error, "no benchmark tests found in /bench");
}

#[test]
fn validate_rejects_newer_config_schema() {
    let mut c = config("https://api.example.test/v1", "example-model");
    c.schema_version = SCHEMA_VERSION + 1;
    assert!(validate_config(&c, false, false).is_err());
    assert!(validate_config(&config("https://api.example.test/v1", "m"), false, false).is_ok());
}

#[test]
fn validate_checks_the_api_key_only_when_asked() {
    let c = config("https://api.example.test/v1", "example-model");
    let error = validate_config(&c, true, false).unwrap_err();
    assert!(error.contains("EXAMPLE_API_KEY"));
    assert!(validate_config(&c, true, true).is_ok());
    assert!(validate_config(&c, false, false).is_ok());
}

#[test]
fn resolve_context_path_accepts_inline_content() {
    assert_eq!(resolve_context_path("/tmp/bench", "some inline text\nwith newline", None).unwrap(), None);
    let long_text = "x".repeat(5000);
    assert_eq!(resolve_context_path("/tmp/bench", &long_text, None).unwrap(), None);
}

#[test]
fn resolve_context_path_accepts_absolute_path_under_bench_dir() {
    // The file system resolved `/tmp/bench/test.txt` to itself.
    let r = resolve_context_path("/tmp/bench", "/tmp/bench/test.txt", Some(s("/tmp/bench/test.txt"))).unwrap();
    assert_eq!(r.unwrap(), "/tmp/bench/test.txt");
}

#[test]
fn resolve_context_path_rejects_paths_outside_bench_dir() {
    let absolute_error =
        resolve_context_path("/tmp/t/bench", "/tmp/t/secret.txt", Some(s("/tmp/t/secret.txt"))).unwrap_err();
    assert!(absolute_error.contains("benchmark directory"));
    // `../secret.txt` joined to the directory resolves outside it.
    let relative_error =
        resolve_context_path("/tmp/t/bench", "../secret.txt", Some(s("/tmp/t/secret.txt"))).unwrap_err();
    assert!(relative_error.contains("benchmark directory"));
    assert_eq!(relative_error, "context file must stay under benchmark directory: ../secret.txt");
}

#[test]
fn resolve_context_path_reports_missing_files() {
    let err = resolve_context_path("/bench", "contexts/gone.txt", None).unwrap_err();
    assert_eq!(err, "context does not resolve to a file: contexts/gone.txt");
    let ok = resolve_context_path("/bench", "contexts/a.txt", Some(s("/bench/contexts/a.txt"))).unwrap();
    assert_eq!(ok, Some(s("/bench/contexts/a.txt")));
    assert!(resolve_context_path("/bench", "x", Some(s("/benchmark/x"))).is_err());
    assert!(resolve_context_path("/bench", "x", Some(s("/bench"))).is_ok());
}
