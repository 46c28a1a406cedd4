use vstd::prelude::*;

use crate::compare::{html_escape, push_escaped};
use crate::report::{
    average_latency, FailureGroupSummary, GroupCounts, ReportCounts, ResultRow,
};
use crate::text::{dec, extend_chars, extend_str, string_of, u64_to_chars};

verus! {

/// The parts of the report page that are figures in floating point, already
/// printed: the overall pass rate, the pass rate of every group of each
/// table, each row's routing confidence (for the rows that were routed),
/// and the two trend charts.
pub struct ReportFigures {
    pub pass_rate: String,
    pub suite_rates: Vec<String>,
    pub token_rates: Vec<String>,
    pub position_rates: Vec<String>,
    pub routing_confidences: Vec<Option<String>>,
    pub latency_chart: String,
    pub token_chart: String,
}

pub open spec fn page_head() -> Seq<char> {
    "<!DOCTYPE html>\n<html lang=\"en\">\n<head>\n<meta charset=\"utf-8\">\n<title>Long Context Benchmark Report</title>\n<style>body{font-family:system-ui,sans-serif;margin:2rem;color:#1f2933}table{border-collapse:collapse;margin-bottom:1.5rem}td,th{border:1px solid #d9dee7;padding:4px 8px;text-align:left;vertical-align:top}.pass{color:#0f766e}.fail{color:#b91c1c}svg{max-width:600px;width:100%}</style>\n</head>\n<body>\n<h1>Long Context Benchmark Report</h1>\n"@
}

pub open spec fn totals_line(c: ReportCounts, pass_rate: Seq<char>) -> Seq<char> {
    "<table>\n<tr><th>Total</th><td>"@ + dec(c.total as nat) + "</td></tr>\n<tr><th>Passed</th><td>"@
        + dec(c.passed as nat) + "</td></tr>\n<tr><th>Pass rate</th><td>"@ + pass_rate
        + "%</td></tr>\n<tr><th>Avg latency (ms)</th><td>"@ + dec(c.avg_latency_ms as nat)
        + "</td></tr>\n</table>\n"@
}

pub open spec fn average_spec(g: GroupCounts) -> nat {
    if g.total == 0 {
        0
    } else {
        g.latency_sum as nat / g.total as nat
    }
}

pub open spec fn group_row(g: GroupCounts, rate: Seq<char>) -> Seq<char> {
    "<tr><td>"@ + html_escape(g.label@) + "</td><td>"@ + dec(g.passed as nat) + "</td><td>"@
        + dec(g.total as nat) + "</td><td>"@ + rate + "%</td><td>"@ + dec(average_spec(g))
        + "</td></tr>\n"@
}

pub open spec fn group_rows(gs: Seq<GroupCounts>, rates: Seq<Seq<char>>) -> Seq<char>
    decreases gs.len(),
{
    if gs.len() == 0 {
        seq![]
    } else {
        group_rows(gs.drop_last(), rates) + group_row(gs.last(), rates[gs.len() - 1])
    }
}

pub open spec fn group_table(title: Seq<char>, gs: Seq<GroupCounts>, rates: Seq<Seq<char>>) -> Seq<char> {
    "<section>\n<h2>"@ + title
        + "</h2>\n<table>\n<thead><tr><th>Label</th><th>Passed</th><th>Total</th><th>Pass rate</th><th>Avg latency (ms)</th></tr></thead>\n<tbody>\n"@
        + group_rows(gs, rates) + "</tbody>\n</table>\n</section>\n"@
}

pub open spec fn failure_row(f: FailureGroupSummary) -> Seq<char> {
    "<tr><td>"@ + html_escape(f.label@) + "</td><td>"@ + dec(f.count as nat) + "</td></tr>\n"@
}

pub open spec fn failure_rows(fs: Seq<FailureGroupSummary>) -> Seq<char>
    decreases fs.len(),
{
    if fs.len() == 0 {
        seq![]
    } else {
        failure_rows(fs.drop_last()) + failure_row(fs.last())
    }
}

pub open spec fn failure_table(fs: Seq<FailureGroupSummary>) -> Seq<char> {
    "<section>\n<h2>Failure Groups</h2>\n<table>\n<thead><tr><th>Group</th><th>Count</th></tr></thead>\n<tbody>\n"@
        + failure_rows(fs) + "</tbody>\n</table>\n</section>\n"@
}

pub open spec fn charts(latency_chart: Seq<char>, token_chart: Seq<char>) -> Seq<char> {
    "<section>\n<h2>Latency Trend</h2>\n"@ + latency_chart
        + "\n</section>\n<section>\n<h2>Input Token Trend</h2>\n"@ + token_chart
        + "\n</section>\n"@
}

pub open spec fn cell(text: Seq<char>) -> Seq<char> {
    "<td>"@ + html_escape(text) + "</td>"@
}

pub open spec fn routing_cell(row: ResultRow, confidence: Option<String>) -> Seq<char> {
    match confidence {
        Some(c) => cell(row.routing_display@ + " / "@ + c@),
        None => cell(seq![]),
    }
}

pub open spec fn leading_cells(row: ResultRow) -> Seq<char> {
    cell(row.id@) + cell(row.suite_display@) + cell(row.token_count_display@) + cell(
        row.model_display@,
    ) + "<td><span class=\""@ + row.status_text@ + "\">"@ + row.status_text@ + "</span></td>"@
}

pub open spec fn exchange_cells(row: ResultRow) -> Seq<char> {
    cell(dec(row.attempts as nat)) + cell(dec(row.latency_ms as nat)) + cell(
        dec(row.input_tokens as nat),
    ) + cell(row.http_status_display@) + cell(row.request_id_display@) + cell(
        row.rate_limit_remaining_display@,
    ) + cell(row.rate_limit_reset_display@) + cell(row.error_kind_display@)
}

pub open spec fn trailing_cells(row: ResultRow) -> Seq<char> {
    cell(row.routing_context_display@) + cell(row.judge_display@) + cell(row.answer_display@)
        + cell(row.error_display@)
}

pub open spec fn result_line(row: ResultRow, confidence: Option<String>) -> Seq<char> {
    "<tr>"@ + leading_cells(row) + exchange_cells(row) + routing_cell(row, confidence)
        + trailing_cells(row) + "</tr>\n"@
}

pub open spec fn result_lines(rows: Seq<ResultRow>, confidences: Seq<Option<String>>) -> Seq<char>
    decreases rows.len(),
{
    if rows.len() == 0 {
        seq![]
    } else {
        result_lines(rows.drop_last(), confidences) + result_line(
            rows.last(),
            confidences[rows.len() - 1],
        )
    }
}

pub open spec fn results_table(rows: Seq<ResultRow>, confidences: Seq<Option<String>>) -> Seq<char> {
    "<section>\n<h2>Results</h2>\n<table>\n<thead><tr><th>ID</th><th>Suite</th><th>Tokens</th><th>Model</th><th>Status</th><th>Attempts</th><th>Latency (ms)</th><th>Input tokens</th><th>HTTP</th><th>Request ID</th><th>Rate limit remaining</th><th>Rate limit reset</th><th>Error kind</th><th>Routing</th><th>Routed context</th><th>Judge</th><th>Answer</th><th>Error</th></tr></thead>\n<tbody>\n"@
        + result_lines(rows, confidences) + "</tbody>\n</table>\n</section>\n"@
}

/// The report page: totals, the suite, token-count and (when any) position
/// tables, the failure groups, the trend charts and one row per result.
pub open spec fn report_page_spec(c: ReportCounts, rows: Seq<ResultRow>, f: ReportFigures) -> Seq<char> {
    page_head() + totals_line(c, f.pass_rate@) + group_table(
        "Suites"@,
        c.suites@,
        crate::text::strings_view(f.suite_rates@),
    ) + group_table("Token Counts"@, c.token_counts@, crate::text::strings_view(f.token_rates@))
        + (if c.positions@.len() > 0 {
        group_table("Positions"@, c.positions@, crate::text::strings_view(f.position_rates@))
    } else {
        seq![]
    }) + failure_table(c.failure_groups@) + charts(f.latency_chart@, f.token_chart@)
        + results_table(rows, f.routing_confidences@) + "</body>\n</html>\n"@
}

fn push_number(r: &mut Vec<char>, n: u64)
    ensures
        final(r)@ == old(r)@ + dec(n as nat),
{
    let d = u64_to_chars(n);
    extend_chars(r, d.as_slice());
}

fn push_group_row(r: &mut Vec<char>, g: &GroupCounts, rate: &str)
    ensures
        final(r)@ == old(r)@ + group_row(*g, rate@),
{
    extend_str(r, "<tr><td>");
    push_escaped(r, g.label.as_str());
    extend_str(r, "</td><td>");
    push_number(r, g.passed as u64);
    extend_str(r, "</td><td>");
    push_number(r, g.total as u64);
    extend_str(r, "</td><td>");
    extend_str(r, rate);
    extend_str(r, "%</td><td>");
    push_number(r, average_latency(g));
    extend_str(r, "</td></tr>\n");
    assert(final(r)@ =~= old(r)@ + group_row(*g, rate@));
}

fn push_group_table(r: &mut Vec<char>, title: &str, gs: &Vec<GroupCounts>, rates: &Vec<String>)
    requires
        rates@.len() == gs@.len(),
    ensures
        final(r)@ == old(r)@ + group_table(title@, gs@, crate::text::strings_view(rates@)),
{
    let ghost rv = crate::text::strings_view(rates@);
    extend_str(r, "<section>\n<h2>");
    extend_str(r, title);
    extend_str(
        r,
        "</h2>\n<table>\n<thead><tr><th>Label</th><th>Passed</th><th>Total</th><th>Pass rate</th><th>Avg latency (ms)</th></tr></thead>\n<tbody>\n",
    );
    let ghost head = r@;
    let mut i: usize = 0;
    while i < gs.len()
        invariant
            i <= gs@.len(),
            rates@.len() == gs@.len(),
            rv == crate::text::strings_view(rates@),
            r@ == head + group_rows(gs@.take(i as int), rv),
        decreases gs@.len() - i,
    {
        let g = &gs[i];
        push_group_row(r, g, rates[i].as_str());
        proof {
            assert(rates@[i as int]@ == rv[i as int]);
            assert(gs@.take(i as int + 1).drop_last() =~= gs@.take(i as int));
            assert(gs@.take(i as int + 1).last() == *g);
        }
        i = i + 1;
    }
    assert(gs@.take(gs@.len() as int) =~= gs@);
    extend_str(r, "</tbody>\n</table>\n</section>\n");
    assert(r@ =~= old(r)@ + group_table(title@, gs@, rv));
}

fn push_failure_table(r: &mut Vec<char>, fs: &Vec<FailureGroupSummary>)
    ensures
        final(r)@ == old(r)@ + failure_table(fs@),
{
    extend_str(
        r,
        "<section>\n<h2>Failure Groups</h2>\n<table>\n<thead><tr><th>Group</th><th>Count</th></tr></thead>\n<tbody>\n",
    );
    let ghost head = r@;
    let mut i: usize = 0;
    while i < fs.len()
        invariant
            i <= fs@.len(),
            r@ == head + failure_rows(fs@.take(i as int)),
        decreases fs@.len() - i,
    {
        let f = &fs[i];
        let ghost before = r@;
        extend_str(r, "<tr><td>");
        push_escaped(r, f.label.as_str());
        extend_str(r, "</td><td>");
        push_number(r, f.count as u64);
        extend_str(r, "</td></tr>\n");
        proof {
            assert(r@ =~= before + failure_row(*f));
            assert(fs@.take(i as int + 1).drop_last() =~= fs@.take(i as int));
            assert(fs@.take(i as int + 1).last() == *f);
        }
        i = i + 1;
    }
    assert(fs@.take(fs@.len() as int) =~= fs@);
    extend_str(r, "</tbody>\n</table>\n</section>\n");
    assert(r@ =~= old(r)@ + failure_table(fs@));
}

fn push_cell(r: &mut Vec<char>, text: &str)
    ensures
        final(r)@ == old(r)@ + cell(text@),
{
    extend_str(r, "<td>");
    push_escaped(r, text);
    extend_str(r, "</td>");
    assert(final(r)@ =~= old(r)@ + cell(text@));
}

fn push_number_cell(r: &mut Vec<char>, n: u64)
    ensures
        final(r)@ == old(r)@ + cell(dec(n as nat)),
{
    let d = string_of(u64_to_chars(n).as_slice());
    push_cell(r, d.as_str());
}

fn push_leading_cells(r: &mut Vec<char>, row: &ResultRow)
    ensures
        final(r)@ == old(r)@ + leading_cells(*row),
{
    push_cell(r, row.id.as_str());
    push_cell(r, row.suite_display.as_str());
    push_cell(r, row.token_count_display.as_str());
    push_cell(r, row.model_display.as_str());
    extend_str(r, "<td><span class=\"");
    extend_str(r, row.status_text.as_str());
    extend_str(r, "\">");
    extend_str(r, row.status_text.as_str());
    extend_str(r, "</span></td>");
    assert(final(r)@ =~= old(r)@ + leading_cells(*row));
}

fn push_exchange_cells(r: &mut Vec<char>, row: &ResultRow)
    ensures
        final(r)@ == old(r)@ + exchange_cells(*row),
{
    push_number_cell(r, row.attempts as u64);
    push_number_cell(r, row.latency_ms);
    push_number_cell(r, row.input_tokens);
    push_cell(r, row.http_status_display.as_str());
    push_cell(r, row.request_id_display.as_str());
    push_cell(r, row.rate_limit_remaining_display.as_str());
    push_cell(r, row.rate_limit_reset_display.as_str());
    push_cell(r, row.error_kind_display.as_str());
    assert(final(r)@ =~= old(r)@ + exchange_cells(*row));
}

fn push_routing_cell(r: &mut Vec<char>, row: &ResultRow, confidence: &Option<String>)
    ensures
        final(r)@ == old(r)@ + routing_cell(*row, *confidence),
{
    match confidence {
        Some(c) => {
            let mut v: Vec<char> = Vec::new();
            extend_str(&mut v, row.routing_display.as_str());
            extend_str(&mut v, " / ");
            extend_str(&mut v, c.as_str());
            let t = string_of(v.as_slice());
            assert(t@ =~= row.routing_display@ + " / "@ + c@);
            push_cell(r, t.as_str());
        },
        None => {
            proof {
                reveal_strlit("");
            }
            push_cell(r, "");
            assert(""@ =~= Seq::<char>::empty());
        },
    }
}

fn push_trailing_cells(r: &mut Vec<char>, row: &ResultRow)
    ensures
        final(r)@ == old(r)@ + trailing_cells(*row),
{
    push_cell(r, row.routing_context_display.as_str());
    push_cell(r, row.judge_display.as_str());
    push_cell(r, row.answer_display.as_str());
    push_cell(r, row.error_display.as_str());
    assert(final(r)@ =~= old(r)@ + trailing_cells(*row));
}

fn push_result_line(r: &mut Vec<char>, row: &ResultRow, confidence: &Option<String>)
    ensures
        final(r)@ == old(r)@ + result_line(*row, *confidence),
{
    extend_str(r, "<tr>");
    push_leading_cells(r, row);
    push_exchange_cells(r, row);
    push_routing_cell(r, row, confidence);
    push_trailing_cells(r, row);
    extend_str(r, "</tr>\n");
    assert(final(r)@ =~= old(r)@ + result_line(*row, *confidence));
}

fn push_results_table(r: &mut Vec<char>, rows: &Vec<ResultRow>, confidences: &Vec<Option<String>>)
    requires
        confidences@.len() == rows@.len(),
    ensures
        final(r)@ == old(r)@ + results_table(rows@, confidences@),
{
    extend_str(
        r,
        "<section>\n<h2>Results</h2>\n<table>\n<thead><tr><th>ID</th><th>Suite</th><th>Tokens</th><th>Model</th><th>Status</th><th>Attempts</th><th>Latency (ms)</th><th>Input tokens</th><th>HTTP</th><th>Request ID</th><th>Rate limit remaining</th><th>Rate limit reset</th><th>Error kind</th><th>Routing</th><th>Routed context</th><th>Judge</th><th>Answer</th><th>Error</th></tr></thead>\n<tbody>\n",
    );
    let ghost head = r@;
    let mut i: usize = 0;
    while i < rows.len()
        invariant
            i <= rows@.len(),
            confidences@.len() == rows@.len(),
            r@ == head + result_lines(rows@.take(i as int), confidences@),
        decreases rows@.len() - i,
    {
        let ghost before = r@;
        push_result_line(r, &rows[i], &confidences[i]);
        proof {
            assert(rows@.take(i as int + 1).drop_last() =~= rows@.take(i as int));
            assert(rows@.take(i as int + 1).last() == rows@[i as int]);
        }
        i = i + 1;
    }
    assert(rows@.take(rows@.len() as int) =~= rows@);
    extend_str(r, "</tbody>\n</table>\n</section>\n");
    assert(r@ =~= old(r)@ + results_table(rows@, confidences@));
}

/// The standalone report page for a set of results: their counts, rows and
/// printed figures. Every label and cell is HTML-escaped; the figures and
/// charts are placed as given.
pub fn report_page(counts: &ReportCounts, rows: &Vec<ResultRow>, figures: &ReportFigures) -> (html: String)
    requires
        figures.suite_rates@.len() == counts.suites@.len(),
        figures.token_rates@.len() == counts.token_counts@.len(),
        figures.position_rates@.len() == counts.positions@.len(),
        figures.routing_confidences@.len() == rows@.len(),
    ensures
        html@ == report_page_spec(*counts, rows@, *figures),
{
    let mut r: Vec<char> = Vec::new();
    extend_str(
        &mut r,
        "<!DOCTYPE html>\n<html lang=\"en\">\n<head>\n<meta charset=\"utf-8\">\n<title>Long Context Benchmark Report</title>\n<style>body{font-family:system-ui,sans-serif;margin:2rem;color:#1f2933}table{border-collapse:collapse;margin-bottom:1.5rem}td,th{border:1px solid #d9dee7;padding:4px 8px;text-align:left;vertical-align:top}.pass{color:#0f766e}.fail{color:#b91c1c}svg{max-width:600px;width:100%}</style>\n</head>\n<body>\n<h1>Long Context Benchmark Report</h1>\n",
    );
    let ghost a = r@;
    extend_str(&mut r, "<table>\n<tr><th>Total</th><td>");
    push_number(&mut r, counts.total as u64);
    extend_str(&mut r, "</td></tr>\n<tr><th>Passed</th><td>");
    push_number(&mut r, counts.passed as u64);
    extend_str(&mut r, "</td></tr>\n<tr><th>Pass rate</th><td>");
    extend_str(&mut r, figures.pass_rate.as_str());
    extend_str(&mut r, "%</td></tr>\n<tr><th>Avg latency (ms)</th><td>");
    push_number(&mut r, counts.avg_latency_ms);
    extend_str(&mut r, "</td></tr>\n</table>\n");
    assert(r@ =~= a + totals_line(*counts, figures.pass_rate@));
    push_group_table(&mut r, "Suites", &counts.suites, &figures.suite_rates);
    push_group_table(&mut r, "Token Counts", &counts.token_counts, &figures.token_rates);
    let ghost b = r@;
    if counts.positions.len() > 0 {
        push_group_table(&mut r, "Positions", &counts.positions, &figures.position_rates);
    }
    push_failure_table(&mut r, &counts.failure_groups);
    let ghost c = r@;
    extend_str(&mut r, "<section>\n<h2>Latency Trend</h2>\n");
    extend_str(&mut r, figures.latency_chart.as_str());
    extend_str(&mut r, "\n</section>\n<section>\n<h2>Input Token Trend</h2>\n");
    extend_str(&mut r, figures.token_chart.as_str());
    extend_str(&mut r, "\n</section>\n");
    assert(r@ =~= c + charts(figures.latency_chart@, figures.token_chart@));
    push_results_table(&mut r, rows, &figures.routing_confidences);
    extend_str(&mut r, "</body>\n</html>\n");
    assert(r@ =~= report_page_spec(*counts, rows@, *figures));
    string_of(r.as_slice())
}

} // verus!
