use longctx::benchmark::{
    BenchmarkResult, ErrorKind, Grader, ProviderConfig, ProviderRequestStyle, TestCase,
    SCHEMA_VERSION,
};
use longctx::compare::compare_results;
use longctx::context_index::{route_context, ContextIndex, ContextIndexEntry};
use longctx::report::summary_counts;
use longctx::runner::{retry_delay_ms, unsent_result};
use longctx::score::latency_score;

fn s(x: &str) -> String {
    x.to_string()
}

fn result(id: &str, suite: &str, tokens: &str, passed: bool, latency: u64) -> BenchmarkResult {
    let test = TestCase {
        schema_version: SCHEMA_VERSION,
        id: s(id),
        context: s("contexts/a.txt"),
        question: s("q"),
        expected: vec![s("a")],
        grader: Grader::Exact,
        metadata: vec![(s("suite"), s(suite)), (s("token_count"), s(tokens))],
    };
    let provider = ProviderConfig {
        base_url: s("https://api.example.test/v1"),
        api_key_env: s("KEY"),
        model: s("m"),
        request_style: ProviderRequestStyle::ChatCompletions,
    };
    let mut r = unsent_result(&test, &provider, ErrorKind::Transport, s("x"), None, latency);
    r.passed = passed;
    if passed {
        r.error = None;
        r.error_kind = None;
    }
    r
}

#[test]
fn comparing_results_with_themselves_changes_nothing() {
    let rs = vec![
        result("a", "needle", "100", true, 10),
        result("b", "needle", "100", false, 20),
        result("c", "conflict", "200", true, 30),
    ];
    let summary = compare_results(&rs, &rs).unwrap();
    assert_eq!(summary.common_total, 3);
    assert!(summary.improved_ids.is_empty());
    assert!(summary.regressed_ids.is_empty());
    assert!(summary.added_ids.is_empty());
    assert!(summary.removed_ids.is_empty());
    assert_eq!(summary.avg_latency_delta_ms, 0);
    assert_eq!(summary.avg_input_tokens_delta, 0);
    assert_eq!(summary.avg_output_tokens_delta, 0);
}

#[test]
fn comparison_classes_do_not_overlap() {
    let baseline = vec![result("a", "n", "1", false, 10), result("b", "n", "1", true, 10), result("old", "n", "1", true, 1)];
    let candidate = vec![result("a", "n", "1", true, 10), result("b", "n", "1", false, 10), result("new", "n", "1", true, 1)];
    let summary = compare_results(&baseline, &candidate).unwrap();
    assert_eq!(summary.improved_ids, vec![s("a")]);
    assert_eq!(summary.regressed_ids, vec![s("b")]);
    assert_eq!(summary.added_ids, vec![s("new")]);
    assert_eq!(summary.removed_ids, vec![s("old")]);
    assert_eq!(summary.common_total, 2);
}

#[test]
fn report_groups_partition_the_results() {
    let rs = vec![
        result("a", "needle", "100", true, 10),
        result("b", "needle", "200", false, 20),
        result("c", "conflict", "200", true, 30),
        result("d", "hallucination", "100", false, 40),
    ];
    let counts = summary_counts(&rs);
    assert_eq!(counts.total, 4);
    assert_eq!(counts.passed, 2);
    assert_eq!(counts.avg_latency_ms, 25);
    let suite_total: usize = counts.suites.iter().map(|g| g.total).sum();
    let token_total: usize = counts.token_counts.iter().map(|g| g.total).sum();
    assert_eq!(suite_total, 4);
    assert_eq!(token_total, 4);
    let labels: Vec<&str> = counts.suites.iter().map(|g| g.label.as_str()).collect();
    assert_eq!(labels, vec!["conflict", "hallucination", "needle"]);
    let needle = &counts.suites[2];
    assert_eq!((needle.total, needle.passed, needle.latency_sum), (2, 1, 30));
    assert_eq!(longctx::report::average_latency(needle), 15);
    let failures: usize = counts.failure_groups.iter().map(|g| g.count).sum();
    assert_eq!(failures, 2);
}

#[test]
fn retry_delays_never_shrink() {
    let mut previous = 0;
    for attempt in 0..20 {
        let d = retry_delay_ms(500, attempt);
        assert!(d >= previous);
        previous = d;
    }
    assert_eq!(retry_delay_ms(500, 1), 500);
    assert_eq!(retry_delay_ms(500, 3), 2000);
}

#[test]
fn slower_answers_never_score_higher() {
    let mut previous = latency_score(0);
    for ms in [0u64, 5_000, 5_001, 15_000, 15_001, 30_000, 30_001, 60_000, 60_001, 1_000_000] {
        let score = latency_score(ms);
        assert!(score <= previous);
        previous = score;
    }
    assert_eq!(latency_score(5_000), 100);
    assert_eq!(latency_score(60_001), 25);
}

fn entry(id: &str, suite: &str, keywords: &[&str]) -> ContextIndexEntry {
    ContextIndexEntry {
        context_id: s(id),
        path: format!("contexts/{id}.txt"),
        sha256: s("hash"),
        suite: s(suite),
        token_count: 100,
        seed: 7,
        source_manifests: vec![],
        test_ids: vec![],
        title: s(id),
        summary: s(id),
        keywords: keywords.iter().map(|k| s(k)).collect(),
        safe_anchors: vec![],
        metadata: Vec::new(),
    }
}

#[test]
fn routing_does_not_depend_on_expected_answers() {
    let index = ContextIndex {
        schema_version: SCHEMA_VERSION,
        bench_id: s("bench"),
        created_at_unix_ms: 1,
        contexts: vec![
            entry("needle_context", "needle", &["archive", "access", "code"]),
            entry("conflict_context", "conflict", &["routing", "audit", "key"]),
        ],
    };
    let mut test = TestCase {
        schema_version: SCHEMA_VERSION,
        id: s("needle-100"),
        context: s("auto"),
        question: s("What is the archive access code?"),
        expected: vec![s("ORCHID-1")],
        grader: Grader::Exact,
        metadata: vec![(s("suite"), s("needle"))],
    };
    let first = route_context(&test, &index);
    test.expected = vec![s("routing audit key conflict")];
    test.grader = Grader::Contains;
    let second = route_context(&test, &index);
    assert_eq!(first.status, second.status);
    assert_eq!(first.selected_context_path, second.selected_context_path);
    let scores = |d: &longctx::benchmark::RoutingDecision| -> Vec<(String, u64)> {
        d.candidates.iter().map(|c| (c.context_id.clone(), c.score_halves)).collect()
    };
    assert_eq!(scores(&first), scores(&second));
}

#[test]
fn grading_ignores_the_order_of_expected_answers() {
    let mut a = TestCase {
        schema_version: SCHEMA_VERSION,
        id: s("set-1"),
        context: s("contexts/a.txt"),
        question: s("q"),
        expected: vec![s("Aster:12"), s("Beryl:34")],
        grader: Grader::ItemSet,
        metadata: vec![],
    };
    let mut b = a.clone();
    b.expected = vec![s("Beryl:34"), s("Aster:12"), s("Beryl:34")];
    for answer in ["Beryl:34, Aster:12", "Aster:12", "aster: 12, beryl:34", ""] {
        assert_eq!(longctx::grader::grade(answer, &a), longctx::grader::grade(answer, &b));
    }
    a.grader = Grader::Exact;
    b.grader = Grader::Exact;
    for answer in ["Beryl:34", "aster:12", "Cygnus:1"] {
        assert_eq!(longctx::grader::grade(answer, &a), longctx::grader::grade(answer, &b));
    }
}

#[test]
fn report_rows_show_each_field_or_nothing() {
    let mut r = result("row-1", "needle", "100", false, 12);
    r.http_status = Some(503);
    r.request_id = Some(s("req-9"));
    let row = longctx::report::result_row(&r);
    assert_eq!(row.id, "row-1");
    assert_eq!(row.suite_display, "needle");
    assert_eq!(row.token_count_display, "100");
    assert_eq!(row.model_display, "m");
    assert_eq!(row.status_text, "fail");
    assert_eq!(row.http_status_display, "503");
    assert_eq!(row.request_id_display, "req-9");
    assert_eq!(row.rate_limit_reset_display, "");
    assert_eq!(row.error_kind_display, "Transport");
    assert_eq!(row.routing_display, "");
    assert_eq!(row.judge_display, "");
    assert_eq!(row.error_display, "x");
    assert_eq!(row.answer_display, "");
}
