use vstd::prelude::*;

use crate::benchmark::BenchmarkResult;
use crate::context_index::opt_view;
use crate::report::ReportCounts;
use crate::text::{chars_of, dec, extend_chars, extend_str, string_of, u64_to_chars};

use crate::text::clone_opt;

verus! {

broadcast use vstd::seq_lib::to_multiset_insert;

/// The suites of the capability pass, run at one token count.
pub open spec fn capability_suites_spec() -> Seq<Seq<char>> {
    seq![
        "multi-needle"@,
        "conflict"@,
        "multi-hop"@,
        "order-dependent"@,
        "position-sweep"@,
        "hallucination"@,
    ]
}

pub fn capability_suites() -> (v: Vec<&'static str>)
    ensures
        v@.map_values(|s: &str| s@) == capability_suites_spec(),
{
    let v = vec!["multi-needle", "conflict", "multi-hop", "order-dependent", "position-sweep", "hallucination"];
    assert(v@.map_values(|s: &str| s@) =~= capability_suites_spec());
    v
}

#[derive(Clone)]
pub struct ProbeOptions {
    pub min_tokens: u64,
    pub max_tokens: u64,
    pub resolution_tokens: u64,
    pub seed: u64,
    pub config_path: Option<String>,
    pub capability_tokens: Option<u64>,
}

/// The options a probe accepts: a positive start, a cap no lower than the
/// start, a positive resolution and, if the capability pass runs, a positive
/// token count for it.
pub open spec fn probe_options_valid(o: ProbeOptions) -> bool {
    &&& o.min_tokens > 0
    &&& o.max_tokens >= o.min_tokens
    &&& o.resolution_tokens > 0
    &&& o.capability_tokens != Some(0u64)
}

/// Rejects invalid options with the message for the first rule broken.
pub fn validate_probe_options(options: &ProbeOptions) -> (r: Result<(), String>)
    ensures
        r is Ok <==> probe_options_valid(*options),
        options.min_tokens == 0 ==> (r matches Err(e) && e@
            == "--min-tokens must be greater than 0"@),
        options.min_tokens > 0 && options.max_tokens < options.min_tokens ==> (r matches Err(e)
            && e@ == "--max-tokens must be greater than or equal to --min-tokens"@),
        options.min_tokens > 0 && options.max_tokens >= options.min_tokens
            && options.resolution_tokens == 0 ==> (r matches Err(e) && e@
            == "--resolution-tokens must be greater than 0"@),
        options.min_tokens > 0 && options.max_tokens >= options.min_tokens
            && options.resolution_tokens > 0 && options.capability_tokens == Some(0u64) ==> (r matches Err(
            e,
        ) && e@ == "--capability-tokens must be greater than 0"@),
{
    if options.min_tokens == 0 {
        return Err(String::from_str("--min-tokens must be greater than 0"));
    }
    if options.max_tokens < options.min_tokens {
        return Err(String::from_str("--max-tokens must be greater than or equal to --min-tokens"));
    }
    if options.resolution_tokens == 0 {
        return Err(String::from_str("--resolution-tokens must be greater than 0"));
    }
    if let Some(0) = options.capability_tokens {
        return Err(String::from_str("--capability-tokens must be greater than 0"));
    }
    Ok(())
}

// ---------------------------------------------------------------------------
// The search for the largest passing context
// ---------------------------------------------------------------------------

/// The next token count to try between a passing and a failing one: the
/// midpoint rounded down to the resolution, pushed off the ends by one
/// resolution step; none once the two are within the resolution or no such
/// count lies strictly between them.
pub open spec fn midpoint_spec(low: u64, high: u64, resolution: u64) -> Option<u64> {
    if high <= low || high - low <= resolution {
        None
    } else {
        let mid0: int = low + (high - low) / 2;
        let mid1: int = if resolution > 1 {
            (mid0 / (resolution as int)) * resolution
        } else {
            mid0
        };
        let mid2: int = if mid1 <= low {
            if low + resolution > u64::MAX {
                u64::MAX as int
            } else {
                low + resolution
            }
        } else {
            mid1
        };
        let mid3: int = if mid2 >= high {
            if high < resolution {
                0
            } else {
                high - resolution
            }
        } else {
            mid2
        };
        if low < mid3 < high {
            Some(mid3 as u64)
        } else {
            None
        }
    }
}

/// Bisection goes on exactly while the gap between the best passing count
/// and the first failing one is wider than the resolution, and each point
/// lies strictly inside the gap.
pub proof fn lemma_bisection_stops_at_resolution(low: u64, high: u64, resolution: u64)
    requires
        low < high,
        resolution > 0,
    ensures
        midpoint_spec(low, high, resolution) is None <==> high - low <= resolution,
        midpoint_spec(low, high, resolution) matches Some(m) ==> low < m < high,
{
}

pub fn midpoint_token(low_success: u64, high_failure: u64, resolution: u64) -> (r: Option<u64>)
    ensures
        r == midpoint_spec(low_success, high_failure, resolution),
        r matches Some(m) ==> low_success < m < high_failure,
{
    if high_failure <= low_success || high_failure - low_success <= resolution {
        return None;
    }
    let mut mid = low_success + (high_failure - low_success) / 2;
    if resolution > 1 {
        let q = mid / resolution;
        proof {
            assert(q * resolution <= mid) by (nonlinear_arith)
                requires
                    resolution > 1,
                    q == mid / resolution,
            ;
        }
        mid = q * resolution;
    }
    if mid <= low_success {
        mid = low_success.saturating_add(resolution);
    }
    if mid >= high_failure {
        mid = high_failure.saturating_sub(resolution);
    }
    if mid > low_success && mid < high_failure {
        Some(mid)
    } else {
        None
    }
}

/// One probe request: the token count tried and what came back.
#[derive(Clone)]
pub struct ProbeAttemptSummary {
    pub token_count: u64,
    pub bench_dir: String,
    pub passed: bool,
    pub http_status: Option<u16>,
    pub error_kind: Option<String>,
    pub attempts: u32,
    pub latency_ms: u64,
    pub input_tokens: u64,
    pub output_tokens: u64,
    pub answer: Option<String>,
    pub error: Option<String>,
}

/// The summary of the single result of a probe's benchmark.
pub fn result_to_attempt(token_count: u64, bench_dir: &str, result: BenchmarkResult) -> (a:
    ProbeAttemptSummary)
    ensures
        a.token_count == token_count,
        a.bench_dir@ == bench_dir@,
        a.passed == result.passed,
        a.http_status == result.http_status,
        opt_view(a.error_kind) == match result.error_kind {
            Some(k) => Some(k.name_spec()),
            None => None,
        },
        a.attempts == result.attempts,
        a.latency_ms == result.latency_ms,
        a.input_tokens == result.input_tokens,
        a.output_tokens == result.output_tokens,
        a.answer == result.answer,
        a.error == result.error,
{
    ProbeAttemptSummary {
        token_count,
        bench_dir: string_of(chars_of(bench_dir).as_slice()),
        passed: result.passed,
        http_status: result.http_status,
        error_kind: match result.error_kind {
            Some(k) => Some(k.name()),
            None => None,
        },
        attempts: result.attempts,
        latency_ms: result.latency_ms,
        input_tokens: result.input_tokens,
        output_tokens: result.output_tokens,
        answer: result.answer,
        error: result.error,
    }
}

/// The search state: the probe doubles the token count from the start
/// until a request fails or the cap passes, then bisects between the best
/// passing and the first failing count down to the resolution.
pub struct ProbeSearch {
    pub min_tokens: u64,
    pub max_tokens: u64,
    pub resolution_tokens: u64,
    pub best_success: Option<ProbeAttemptSummary>,
    pub first_failure: Option<ProbeAttemptSummary>,
    pub attempts: Vec<ProbeAttemptSummary>,
    /// The token count to try next, if any.
    pub next: Option<u64>,
}

pub open spec fn opt_tokens(a: Option<ProbeAttemptSummary>) -> Option<u64> {
    match a {
        Some(x) => Some(x.token_count),
        None => None,
    }
}

impl ProbeSearch {
    /// Where a finished search ends: at the cap when nothing failed; with
    /// the passing and failing counts at most the resolution apart when
    /// both are known; at the starting count when nothing passed.
    pub open spec fn finished(self) -> bool {
        match (opt_tokens(self.best_success), opt_tokens(self.first_failure)) {
            (Some(x), None) => x == self.max_tokens,
            (Some(x), Some(y)) => y - x <= self.resolution_tokens,
            (None, Some(y)) => y == self.min_tokens,
            (None, None) => false,
        }
    }

    /// What every state of the search keeps: each count tried lies between
    /// the starting count and the cap; the best passing count lies below the
    /// first failing one; a count still to try lies above the best passing
    /// count, and below the first failing one once there is one; until a
    /// request passes, the count to try is the starting one; and once there
    /// is nothing left to try, the search is finished.
    pub open spec fn wf(self) -> bool {
        let b = opt_tokens(self.best_success);
        let f = opt_tokens(self.first_failure);
        &&& self.resolution_tokens > 0
        &&& 0 < self.min_tokens <= self.max_tokens
        &&& forall|k: int|
            0 <= k < self.attempts@.len() ==> self.min_tokens <= (#[trigger] self.attempts@[k]).token_count
                <= self.max_tokens
        &&& match b {
            Some(x) => self.min_tokens <= x <= self.max_tokens,
            None => true,
        }
        &&& match f {
            Some(x) => self.min_tokens <= x <= self.max_tokens,
            None => true,
        }
        &&& (b is None ==> (self.next matches Some(t) ==> t == self.min_tokens))
        &&& (self.next is None ==> self.finished())
        &&& match (b, f) {
            (Some(x), Some(y)) => x < y,
            _ => true,
        }
        &&& match self.next {
            Some(t) => {
                &&& self.min_tokens <= t <= self.max_tokens
                &&& match b {
                    Some(x) => x < t,
                    None => true,
                }
                &&& match f {
                    Some(y) => t < y && b is Some,
                    None => true,
                }
            },
            None => true,
        }
    }

    /// How much search is left: while doubling, the distance to the cap
    /// plus a term above every bisection gap; while bisecting, the gap.
    pub open spec fn measure(self) -> nat {
        match self.next {
            None => 0,
            Some(t) => match (opt_tokens(self.best_success), opt_tokens(self.first_failure)) {
                (_, None) => (u64::MAX as nat) + 1 + (self.max_tokens - t) as nat,
                (Some(b), Some(f)) => (f - b) as nat,
                (None, Some(_)) => 0,
            },
        }
    }

    pub fn start(options: &ProbeOptions) -> (s: Self)
        requires
            probe_options_valid(*options),
        ensures
            s.wf(),
            s.next == Some(options.min_tokens),
            s.min_tokens == options.min_tokens,
            s.max_tokens == options.max_tokens,
            s.resolution_tokens == options.resolution_tokens,
            s.best_success is None,
            s.first_failure is None,
            s.attempts@.len() == 0,
    {
        ProbeSearch {
            min_tokens: options.min_tokens,
            max_tokens: options.max_tokens,
            resolution_tokens: options.resolution_tokens,
            best_success: None,
            first_failure: None,
            attempts: Vec::new(),
            next: Some(options.min_tokens),
        }
    }

    /// The next bisection point, where both ends are known.
    fn bisect(&self) -> (r: Option<u64>)
        ensures
            r == match (opt_tokens(self.best_success), opt_tokens(self.first_failure)) {
                (Some(b), Some(f)) => midpoint_spec(b, f, self.resolution_tokens),
                _ => None,
            },
    {
        match (&self.best_success, &self.first_failure) {
            (Some(b), Some(f)) => midpoint_token(b.token_count, f.token_count, self.resolution_tokens),
            _ => None,
        }
    }

    /// Records the attempt at the count that was next, and picks the count
    /// after it: double while every attempt passed, else the bisection
    /// point. Each step shrinks the search, so the probe ends.
    pub fn record(&mut self, attempt: ProbeAttemptSummary)
        requires
            old(self).wf(),
            old(self).next == Some(attempt.token_count),
        ensures
            final(self).wf(),
            final(self).measure() < old(self).measure(),
            final(self).min_tokens == old(self).min_tokens,
            final(self).max_tokens == old(self).max_tokens,
            final(self).resolution_tokens == old(self).resolution_tokens,
            final(self).attempts@ == old(self).attempts@.push(attempt),
            attempt.passed ==> opt_tokens(final(self).best_success) == Some(attempt.token_count)
                && opt_tokens(final(self).first_failure) == opt_tokens(old(self).first_failure),
            !attempt.passed ==> opt_tokens(final(self).first_failure) == Some(attempt.token_count)
                && opt_tokens(final(self).best_success) == opt_tokens(old(self).best_success),
            final(self).next == if old(self).first_failure is None && attempt.passed {
                if attempt.token_count >= old(self).max_tokens {
                    None
                } else if attempt.token_count * 2 < old(self).max_tokens {
                    Some((attempt.token_count * 2) as u64)
                } else {
                    Some(old(self).max_tokens)
                }
            } else {
                match (
                    opt_tokens(final(self).best_success),
                    opt_tokens(final(self).first_failure),
                ) {
                    (Some(b), Some(f)) => midpoint_spec(b, f, old(self).resolution_tokens),
                    _ => None,
                }
            },
    {
        let t = attempt.token_count;
        let passed = attempt.passed;
        let expanding = self.first_failure.is_none();
        let copy = ProbeAttemptSummary {
            token_count: attempt.token_count,
            bench_dir: attempt.bench_dir.clone(),
            passed: attempt.passed,
            http_status: attempt.http_status,
            error_kind: clone_opt(&attempt.error_kind),
            attempts: attempt.attempts,
            latency_ms: attempt.latency_ms,
            input_tokens: attempt.input_tokens,
            output_tokens: attempt.output_tokens,
            answer: clone_opt(&attempt.answer),
            error: clone_opt(&attempt.error),
        };
        self.attempts.push(copy);
        if passed {
            self.best_success = Some(attempt);
        } else {
            self.first_failure = Some(attempt);
        }
        if expanding && passed {
            if t >= self.max_tokens {
                self.next = None;
            } else {
                self.next = match t.checked_mul(2) {
                    Some(d) => if d < self.max_tokens {
                        Some(d)
                    } else {
                        Some(self.max_tokens)
                    },
                    None => Some(self.max_tokens),
                };
            }
        } else {
            self.next = self.bisect();
            proof {
                if self.best_success is Some && self.first_failure is Some {
                    lemma_bisection_stops_at_resolution(
                        self.best_success->0.token_count,
                        self.first_failure->0.token_count,
                        self.resolution_tokens,
                    );
                }
            }
        }
    }

    /// A finished search ends at the cap when no request failed, with the
    /// best passing and first failing counts at most the resolution apart
    /// when both are known, and at the starting count when no request
    /// passed.
    pub proof fn lemma_finished_search_end_state(self)
        requires
            self.wf(),
            self.next is None,
        ensures
            opt_tokens(self.best_success) is Some || opt_tokens(self.first_failure) is Some,
            opt_tokens(self.first_failure) is None ==> opt_tokens(self.best_success) == Some(self.max_tokens),
            opt_tokens(self.best_success) matches Some(x) ==> (opt_tokens(self.first_failure) matches Some(y) ==> x < y
                && y - x <= self.resolution_tokens),
            opt_tokens(self.best_success) is None ==> opt_tokens(self.first_failure) == Some(self.min_tokens),
    {
    }
}


/// The attempts ordered by token count; attempts with equal counts keep
/// their order.
pub open spec fn by_tokens(s: Seq<ProbeAttemptSummary>) -> bool {
    forall|i: int, j: int|
        0 <= i < j < s.len() ==> (#[trigger] s[i]).token_count <= (#[trigger] s[j]).token_count
}

/// Where an attempt with `tokens` goes in sorted attempts: after every
/// attempt with at most as many tokens.
fn insert_position(r: &Vec<ProbeAttemptSummary>, tokens: u64) -> (p: usize)
    requires
        by_tokens(r@),
    ensures
        p <= r@.len(),
        forall|k: int| p <= k < r@.len() ==> (#[trigger] r@[k]).token_count > tokens,
        p > 0 ==> r@[p - 1].token_count <= tokens,
{
    let mut p: usize = r.len();
    while p > 0 && r[p - 1].token_count > tokens
        invariant
            p <= r@.len(),
            forall|k: int| p <= k < r@.len() ==> (#[trigger] r@[k]).token_count > tokens,
        decreases p,
    {
        p = p - 1;
    }
    p
}

/// Sorts attempts by token count, keeping the order of equal counts.
pub fn sort_attempts(attempts: Vec<ProbeAttemptSummary>) -> (r: Vec<ProbeAttemptSummary>)
    ensures
        by_tokens(r@),
        r@.to_multiset() == attempts@.to_multiset(),
{
    let mut input = attempts;
    let mut r: Vec<ProbeAttemptSummary> = Vec::new();
    let ghost orig = input@;
    let ghost mut taken: Seq<ProbeAttemptSummary> = seq![];
    proof {
        assert(orig =~= taken + input@);
    }
    while input.len() > 0
        invariant
            by_tokens(r@),
            orig == taken + input@,
            r@.to_multiset() == taken.to_multiset(),
        decreases input@.len(),
    {
        let x = input.remove(0);
        let ghost old_taken = taken;
        proof {
            assert(orig =~= taken.push(x) + input@);
            vstd::seq_lib::to_multiset_build(old_taken, x);
            taken = taken.push(x);
        }
        let p = insert_position(&r, x.token_count);
        let ghost before = r@;
        r.insert(p, x);
        proof {
            assert(r@ == before.insert(p as int, x));
            vstd::seq_lib::to_multiset_insert(before, p as int, x);
            assert(r@.to_multiset() == taken.to_multiset());
            assert forall|i: int, j: int| 0 <= i < j < r@.len() implies (
            #[trigger] r@[i]).token_count <= (#[trigger] r@[j]).token_count by {
                if j == p {
                    if p > 0 && i < p {
                        assert(before[p - 1].token_count <= x.token_count);
                        assert(before[i].token_count <= before[p - 1].token_count);
                    }
                } else if i == p {
                    assert(before[j - 1].token_count > x.token_count);
                } else if i < p && j > p {
                    assert(before[i].token_count <= before[j - 1].token_count);
                } else if i > p {
                    assert(before[i - 1].token_count <= before[j - 1].token_count);
                }
            }
        }
    }
    proof {
        assert(input@ =~= Seq::<ProbeAttemptSummary>::empty());
        assert(orig =~= taken);
    }
    r
}

// ---------------------------------------------------------------------------
// The probe summary
// ---------------------------------------------------------------------------

/// The capability pass: its report, counts, and the pass rate as the report
/// shows it (a percentage with one decimal).
pub struct CapabilityProbeSummary {
    pub token_count: u64,
    pub bench_dir: String,
    pub report_path: String,
    pub summary: ReportCounts,
    pub pass_rate_display: String,
}

pub struct ProbeSummary {
    pub run_dir: String,
    pub provider_model: String,
    pub provider_base_url: String,
    pub request_style: String,
    pub min_tokens: u64,
    pub max_tokens: u64,
    pub resolution_tokens: u64,
    pub seed: u64,
    pub best_success: Option<ProbeAttemptSummary>,
    pub first_failure: Option<ProbeAttemptSummary>,
    pub attempts: Vec<ProbeAttemptSummary>,
    pub capabilities: Option<CapabilityProbeSummary>,
}

pub open spec fn display_opt_spec(v: Option<u16>) -> Seq<char> {
    match v {
        Some(x) => dec(x as nat),
        None => seq![],
    }
}

/// A status for display: its number, or nothing.
pub fn display_opt(value: Option<u16>) -> (s: String)
    ensures
        s@ == display_opt_spec(value),
{
    match value {
        Some(x) => string_of(u64_to_chars(x as u64).as_slice()),
        None => String::new(),
    }
}

pub open spec fn kind_text(a: ProbeAttemptSummary) -> Seq<char> {
    match opt_view(a.error_kind) {
        Some(k) => k,
        None => seq![],
    }
}

pub open spec fn status_kind_spec(a: ProbeAttemptSummary) -> Seq<char> {
    " (status: "@ + display_opt_spec(a.http_status) + ", error_kind: "@ + kind_text(a) + ")\n"@
}

pub open spec fn outcome_spec(s: ProbeSummary) -> Seq<char> {
    match (s.best_success, s.first_failure) {
        (Some(ok), Some(bad)) => "max passing token_count: "@ + dec(ok.token_count as nat)
            + " (input_tokens: "@ + dec(ok.input_tokens as nat) + ")\n"@
            + "first failing token_count: "@ + dec(bad.token_count as nat) + status_kind_spec(bad),
        (Some(ok), None) => "all probes passed through token_count: "@ + dec(
            ok.token_count as nat,
        ) + " (input_tokens: "@ + dec(ok.input_tokens as nat) + ")\n"@,
        (None, Some(bad)) => "minimum token_count failed: "@ + dec(bad.token_count as nat)
            + status_kind_spec(bad),
        (None, None) => "no probe attempts were run\n"@,
    }
}

pub open spec fn attempt_line(a: ProbeAttemptSummary) -> Seq<char> {
    "  "@ + (if a.passed {
        "pass"@
    } else {
        "fail"@
    }) + " token_count="@ + dec(a.token_count as nat) + " input_tokens="@ + dec(
        a.input_tokens as nat,
    ) + " http_status="@ + display_opt_spec(a.http_status) + " latency_ms="@ + dec(
        a.latency_ms as nat,
    ) + " error_kind="@ + kind_text(a) + "\n"@
}

pub open spec fn attempt_lines(s: Seq<ProbeAttemptSummary>) -> Seq<char>
    decreases s.len(),
{
    if s.len() == 0 {
        seq![]
    } else {
        attempt_lines(s.drop_last()) + attempt_line(s.last())
    }
}

pub open spec fn capability_line(c: Option<CapabilityProbeSummary>) -> Seq<char> {
    match c {
        Some(c) => "capabilities @ "@ + dec(c.token_count as nat) + " tokens: "@ + dec(
            c.summary.passed as nat,
        ) + "/"@ + dec(c.summary.total as nat) + " passed ("@ + c.pass_rate_display@
            + "%), report: "@ + c.report_path@ + "\n"@,
        None => seq![],
    }
}

pub open spec fn probe_render_spec(s: ProbeSummary) -> Seq<char> {
    "probe run: "@ + s.run_dir@ + "\n"@ + "provider: "@ + s.provider_model@ + " ("@
        + s.provider_base_url@ + ", "@ + s.request_style@ + ")\n"@ + outcome_spec(s)
        + "attempts:\n"@ + attempt_lines(s.attempts@) + capability_line(s.capabilities)
}

fn push_number(r: &mut Vec<char>, n: u64)
    ensures
        final(r)@ == old(r)@ + dec(n as nat),
{
    let d = u64_to_chars(n);
    extend_chars(r, d.as_slice());
}

fn push_opt_text(r: &mut Vec<char>, o: &Option<String>)
    ensures
        final(r)@ == old(r)@ + match opt_view(*o) {
            Some(t) => t,
            None => seq![],
        },
{
    match o {
        Some(t) => extend_str(r, t.as_str()),
        None => {
            assert(r@ =~= r@ + Seq::<char>::empty());
        },
    }
}

fn push_status_kind(r: &mut Vec<char>, a: &ProbeAttemptSummary)
    ensures
        final(r)@ == old(r)@ + status_kind_spec(*a),
{
    let ghost start = r@;
    extend_str(r, " (status: ");
    extend_chars(r, chars_of(display_opt(a.http_status).as_str()).as_slice());
    extend_str(r, ", error_kind: ");
    push_opt_text(r, &a.error_kind);
    extend_str(r, ")\n");
    assert(r@ =~= start + status_kind_spec(*a));
}

fn push_attempt_line(r: &mut Vec<char>, a: &ProbeAttemptSummary)
    ensures
        final(r)@ == old(r)@ + attempt_line(*a),
{
    let ghost start = r@;
    extend_str(r, "  ");
    if a.passed {
        extend_str(r, "pass");
    } else {
        extend_str(r, "fail");
    }
    extend_str(r, " token_count=");
    push_number(r, a.token_count);
    extend_str(r, " input_tokens=");
    push_number(r, a.input_tokens);
    extend_str(r, " http_status=");
    extend_chars(r, chars_of(display_opt(a.http_status).as_str()).as_slice());
    extend_str(r, " latency_ms=");
    push_number(r, a.latency_ms);
    extend_str(r, " error_kind=");
    push_opt_text(r, &a.error_kind);
    extend_str(r, "\n");
    assert(r@ =~= start + attempt_line(*a));
}

fn push_outcome(r: &mut Vec<char>, s: &ProbeSummary)
    ensures
        final(r)@ == old(r)@ + outcome_spec(*s),
{
    let ghost head = old(r)@;
    match (&s.best_success, &s.first_failure) {
        (Some(ok), Some(bad)) => {
            extend_str(r, "max passing token_count: ");
            push_number(r, ok.token_count);
            extend_str(r, " (input_tokens: ");
            push_number(r, ok.input_tokens);
            extend_str(r, ")\n");
            extend_str(r, "first failing token_count: ");
            push_number(r, bad.token_count);
            push_status_kind(r, bad);
        },
        (Some(ok), None) => {
            extend_str(r, "all probes passed through token_count: ");
            push_number(r, ok.token_count);
            extend_str(r, " (input_tokens: ");
            push_number(r, ok.input_tokens);
            extend_str(r, ")\n");
        },
        (None, Some(bad)) => {
            extend_str(r, "minimum token_count failed: ");
            push_number(r, bad.token_count);
            push_status_kind(r, bad);
        },
        (None, None) => {
            extend_str(r, "no probe attempts were run\n");
        },
    }
    assert(r@ =~= head + outcome_spec(*s));
}

fn push_capability_line(r: &mut Vec<char>, capabilities: &Option<CapabilityProbeSummary>)
    ensures
        final(r)@ == old(r)@ + capability_line(*capabilities),
{
    if let Some(c) = capabilities {
        extend_str(r, "capabilities @ ");
        push_number(r, c.token_count);
        extend_str(r, " tokens: ");
        push_number(r, c.summary.passed as u64);
        extend_str(r, "/");
        push_number(r, c.summary.total as u64);
        extend_str(r, " passed (");
        extend_str(r, c.pass_rate_display.as_str());
        extend_str(r, "%), report: ");
        extend_str(r, c.report_path.as_str());
        extend_str(r, "\n");
    }
    assert(r@ =~= old(r)@ + capability_line(*capabilities));
}

impl ProbeSummary {
    /// The plain-text summary of a probe.
    pub fn render(&self) -> (out: String)
        ensures
            out@ == probe_render_spec(*self),
    {
        let mut r: Vec<char> = Vec::new();
        extend_str(&mut r, "probe run: ");
        extend_str(&mut r, self.run_dir.as_str());
        extend_str(&mut r, "\n");
        extend_str(&mut r, "provider: ");
        extend_str(&mut r, self.provider_model.as_str());
        extend_str(&mut r, " (");
        extend_str(&mut r, self.provider_base_url.as_str());
        extend_str(&mut r, ", ");
        extend_str(&mut r, self.request_style.as_str());
        extend_str(&mut r, ")\n");
        push_outcome(&mut r, self);
        extend_str(&mut r, "attempts:\n");
        let ghost before_lines = r@;
        let mut i: usize = 0;
        while i < self.attempts.len()
            invariant
                i <= self.attempts@.len(),
                r@ == before_lines + attempt_lines(self.attempts@.take(i as int)),
            decreases self.attempts@.len() - i,
        {
            proof {
                assert(self.attempts@.take(i as int + 1).drop_last() =~= self.attempts@.take(
                    i as int,
                ));
                assert(self.attempts@.take(i as int + 1).last() == self.attempts@[i as int]);
            }
            push_attempt_line(&mut r, &self.attempts[i]);
            proof {
                assert(r@ =~= before_lines + attempt_lines(self.attempts@.take(i as int + 1)));
            }
            i = i + 1;
        }
        assert(self.attempts@.take(self.attempts@.len() as int) =~= self.attempts@);
        push_capability_line(&mut r, &self.capabilities);
        string_of(r.as_slice())
    }
}

} // verus!
