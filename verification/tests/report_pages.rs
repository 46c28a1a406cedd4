use longctx::benchmark::{
    BenchmarkResult, ErrorKind, Grader, ProviderConfig, ProviderRequestStyle, RoutingConfidence,
    RoutingDecision, TestCase, SCHEMA_VERSION,
};
use longctx::report::{result_row, summary_counts, ReportCounts};
use longctx::report_page::{report_page, ReportFigures};
use longctx::runner::unsent_result;

fn s(x: &str) -> String {
    x.to_string()
}

fn row(id: &str, suite: &str, passed: bool, latency_ms: u64, kind: ErrorKind, error: &str) -> BenchmarkResult {
    let test = TestCase {
        schema_version: SCHEMA_VERSION,
        id: s(id),
        context: s("c"),
        question: s("q"),
        expected: vec![s("A")],
        grader: Grader::Exact,
        metadata: vec![(s("suite"), s(suite)), (s("token_count"), s("100000"))],
    };
    let provider = ProviderConfig {
        base_url: s("https://api.openai.com/v1"),
        api_key_env: s("OPENAI_API_KEY"),
        model: s("gpt-4.1"),
        request_style: ProviderRequestStyle::ChatCompletions,
    };
    let mut r = unsent_result(&test, &provider, kind, s(error), None, latency_ms);
    r.passed = passed;
    r.attempts = 1;
    if passed {
        r.error = None;
        r.error_kind = None;
        r.answer = Some(s("A"));
    }
    r
}

/// The page as the command draws it, with the figures printed plainly.
fn page(results: &Vec<BenchmarkResult>, confidences: Vec<Option<String>>) -> String {
    let counts: ReportCounts = summary_counts(results);
    let rate = |p: usize, t: usize| if t == 0 { s("0.0") } else { format!("{:.1}", p as f64 * 100.0 / t as f64) };
    let figures = ReportFigures {
        pass_rate: rate(counts.passed, counts.total),
        suite_rates: counts.suites.iter().map(|g| rate(g.passed, g.total)).collect(),
        token_rates: counts.token_counts.iter().map(|g| rate(g.passed, g.total)).collect(),
        position_rates: counts.positions.iter().map(|g| rate(g.passed, g.total)).collect(),
        routing_confidences: confidences,
        latency_chart: s("<svg></svg>"),
        token_chart: s("<svg></svg>"),
    };
    let rows = results.iter().map(result_row).collect();
    report_page(&counts, &rows, &figures)
}

#[test]
fn report_includes_suite_and_failure_summary() {
    let results = vec![
        row("a", "needle", true, 10, ErrorKind::Http, ""),
        row("b", "needle", false, 20, ErrorKind::Http, "boom"),
    ];
    let html = page(&results, vec![None, None]);
    assert!(html.contains("Suites"));
    assert!(html.contains("Latency Trend"));
    assert!(html.contains("Token Counts"));
    assert!(html.contains("Failure Groups"));
    assert!(html.contains("needle"));
    assert!(html.contains("Http"));
    assert!(html.contains("<tr><th>Pass rate</th><td>50.0%</td></tr>"));
    assert!(html.contains("<tr><th>Avg latency (ms)</th><td>15</td></tr>"));
    assert!(html.contains("<tr><td>needle</td><td>1</td><td>2</td><td>50.0%</td><td>15</td></tr>"));
}

#[test]
fn report_includes_judge_audit_details() {
    let mut r = row("judge-1", "judge", false, 10, ErrorKind::Judge, "LLM judge failed: HTTP 500");
    r.judge_latency_ms = Some(7);
    r.judge_input_tokens = Some(20);
    r.judge_output_tokens = Some(0);
    r.judge_http_status = Some(500);
    r.judge_attempts = Some(1);
    r.judge_error = Some(s("HTTP 500 from judge"));
    let html = page(&vec![r], vec![None]);
    assert!(html.contains("Judge"));
    assert!(html.contains("HTTP 500"));
    assert!(html.contains("HTTP 500 from judge"));
}

#[test]
fn report_includes_routing_decision_columns() {
    let mut r = row("a", "needle", true, 10, ErrorKind::Http, "");
    r.routing = Some(RoutingDecision {
        schema_version: SCHEMA_VERSION,
        test_id: s("a"),
        selected_context_id: Some(s("needle_context")),
        selected_context_path: Some(s("contexts/needle_context.txt")),
        method: s("hybrid"),
        status: s("selected"),
        confidence: RoutingConfidence::Recorded { bits: 0.9f64.to_bits() },
        candidates: vec![],
        llm_router_used: false,
        input_tokens: 0,
        output_tokens: 0,
        latency_ms: 0,
        reason: Some(s("local_router_selected_top_candidate")),
    });
    let html = page(&vec![r], vec![Some(format!("{:.2}", 0.9f64))]);
    assert!(html.contains("Routing"));
    assert!(html.contains("selected / hybrid / 0.90"));
    assert!(html.contains("contexts/needle_context.txt"));
}

#[test]
fn report_handles_empty_results_file() {
    let html = page(&vec![], vec![]);
    assert!(html.contains("Long Context Benchmark Report"));
    assert!(html.contains(">0<"));
}

#[test]
fn report_cells_are_escaped() {
    let r = row("<script>", "a&b", false, 1, ErrorKind::Validation, "\"quoted\"");
    let html = page(&vec![r], vec![None]);
    assert!(html.contains("<td>&lt;script&gt;</td>"));
    assert!(html.contains("a&amp;b"));
    assert!(html.contains("&quot;quoted&quot;"));
    assert!(!html.contains("<script>"));
}
