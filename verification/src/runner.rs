use vstd::prelude::*;

use crate::benchmark::{
    meta_get, meta_lookup, BenchmarkResult, Config, ErrorKind, FileFingerprint, ProviderConfig,
    RoutingDecision, RunConfig, RunMetadata, TestCase, SCHEMA_VERSION,
};
use crate::context_index::{
    is_auto_context, is_auto_spec, opt_view, ranked_spec, route_context, route_spec, ContextIndex,
};
use crate::grader::{grade, grade_spec, LlmJudgeResult};
use crate::benchmark::Grader;
use crate::tokenizer::{spec_token_count, token_count_or_zero, TokenCounter};
use crate::hashing::{sha256_hex_of_str, spec_sha256_hex};
use crate::text::{
    chars_of, contains_chars, extend_chars, extend_str, has_sub, insert_sorted_unique, join_seq,
    join_strings, parse_u64, parse_u64_spec, string_of, strictly_sorted, strings_view, trim_seq,
    trim_str,
};

use crate::text::clone_opt;

verus! {

// ---------------------------------------------------------------------------
// Run options and the output guard
// ---------------------------------------------------------------------------

pub struct RunOptions {
    pub force: bool,
    pub dry_run: bool,
    pub filter: Option<String>,
    pub limit: Option<usize>,
}

impl Default for RunOptions {
    fn default() -> (o: Self)
        ensures
            !o.force,
            !o.dry_run,
            o.filter is None,
            o.limit is None,
    {
        RunOptions { force: false, dry_run: false, filter: None, limit: None }
    }
}

/// An output file the run would write, with whether it exists already.
pub struct OutputPath {
    pub path: String,
    pub exists: bool,
}

pub open spec fn existing_output_message(path: Seq<char>) -> Seq<char> {
    "refusing to overwrite existing output "@ + path + "; rerun with --force to replace it"@
}

/// The error a run gives for an output file that is already there.
pub fn bail_existing_output(path: &str) -> (r: Result<(), String>)
    ensures
        r matches Err(e) && e@ == existing_output_message(path@),
{
    let mut m: Vec<char> = Vec::new();
    extend_str(&mut m, "refusing to overwrite existing output ");
    extend_str(&mut m, path);
    extend_str(&mut m, "; rerun with --force to replace it");
    Err(string_of(m.as_slice()))
}

/// Without `force`, a run refuses to replace an existing results file, run
/// snapshot or request log, checked in that order.
pub fn ensure_output_paths_can_be_written(
    results_path: &OutputPath,
    run_metadata_path: &OutputPath,
    request_log_path: Option<&OutputPath>,
    force: bool,
) -> (r: Result<(), String>)
    ensures
        force ==> r is Ok,
        !force && results_path.exists ==> (r matches Err(e) && e@ == existing_output_message(
            results_path.path@,
        )),
        !force && !results_path.exists && run_metadata_path.exists ==> (r matches Err(e) && e@
            == existing_output_message(run_metadata_path.path@)),
        !force && !results_path.exists && !run_metadata_path.exists ==> match request_log_path {
            Some(p) => if p.exists {
                (r matches Err(e) && e@ == existing_output_message(p.path@))
            } else {
                r is Ok
            },
            None => r is Ok,
        },
{
    if force {
        return Ok(());
    }
    if results_path.exists {
        return bail_existing_output(results_path.path.as_str());
    }
    if run_metadata_path.exists {
        return bail_existing_output(run_metadata_path.path.as_str());
    }
    if let Some(p) = request_log_path {
        if p.exists {
            return bail_existing_output(p.path.as_str());
        }
    }
    Ok(())
}

// ---------------------------------------------------------------------------
// Suites and token counts of tests
// ---------------------------------------------------------------------------

pub open spec fn suite_spec(test: TestCase) -> Option<Seq<char>> {
    meta_lookup(test.metadata@, "suite"@)
}

/// The `suite` metadata of a test.
pub fn suite_name(test: &TestCase) -> (r: Option<String>)
    ensures
        opt_view(r) == suite_spec(*test),
{
    meta_get(&test.metadata, "suite")
}

pub open spec fn token_count_spec(test: TestCase) -> Option<u64> {
    match meta_lookup(test.metadata@, "token_count"@) {
        Some(v) => parse_u64_spec(v),
        None => None,
    }
}

/// The `token_count` metadata of a test, where it parses as a `u64`.
pub fn test_token_count(test: &TestCase) -> (r: Option<u64>)
    ensures
        r == token_count_spec(*test),
{
    match meta_get(&test.metadata, "token_count") {
        Some(v) => {
            let cs = chars_of(v.as_str());
            parse_u64(cs.as_slice())
        },
        None => None,
    }
}

/// Some test of `tests` has suite `x`.
pub open spec fn has_suite(tests: Seq<TestCase>, x: Seq<char>) -> bool {
    exists|k: int| 0 <= k < tests.len() && suite_spec(#[trigger] tests[k]) == Some(x)
}

/// The distinct suites of the tests in sorted order, or `unknown` when no
/// test names one.
pub open spec fn suite_names_spec(tests: Seq<TestCase>, names: Seq<Seq<char>>) -> bool {
    if exists|x: Seq<char>| has_suite(tests, x) {
        &&& strictly_sorted(names)
        &&& forall|x: Seq<char>| names.contains(x) <==> has_suite(tests, x)
    } else {
        names == seq!["unknown"@]
    }
}

pub fn suite_names(tests: &Vec<TestCase>) -> (r: Vec<String>)
    ensures
        suite_names_spec(tests@, strings_view(r@)),
{
    let mut names: Vec<String> = Vec::new();
    let mut i: usize = 0;
    while i < tests.len()
        invariant
            i <= tests@.len(),
            strictly_sorted(strings_view(names@)),
            forall|x: Seq<char>|
                strings_view(names@).contains(x) <==> has_suite(tests@.take(i as int), x),
        decreases tests@.len() - i,
    {
        let ghost before = strings_view(names@);
        let s = suite_name(&tests[i]);
        proof {
            assert forall|x: Seq<char>|
                has_suite(tests@.take(i as int + 1), x) <==> (has_suite(tests@.take(i as int), x)
                    || suite_spec(tests@[i as int]) == Some(x)) by {
                if has_suite(tests@.take(i as int + 1), x) {
                    let k = choose|k: int|
                        0 <= k < i + 1 && suite_spec(#[trigger] tests@.take(i as int + 1)[k])
                            == Some(x);
                    if k < i {
                        assert(tests@.take(i as int)[k] == tests@[k]);
                    }
                }
                if has_suite(tests@.take(i as int), x) {
                    let k = choose|k: int|
                        0 <= k < i && suite_spec(#[trigger] tests@.take(i as int)[k]) == Some(x);
                    assert(tests@.take(i as int + 1)[k] == tests@[k]);
                }
                if suite_spec(tests@[i as int]) == Some(x) {
                    assert(tests@.take(i as int + 1)[i as int] == tests@[i as int]);
                }
            }
        }
        match s {
            Some(name) => {
                insert_sorted_unique(&mut names, name);
            },
            None => {},
        }
        i = i + 1;
    }
    assert(tests@.take(tests@.len() as int) =~= tests@);
    if names.len() == 0 {
        proof {
            assert forall|x: Seq<char>| !has_suite(tests@, x) by {
                assert(!strings_view(names@).contains(x));
            }
        }
        names.push(String::from_str("unknown"));
        assert(strings_view(names@) =~= seq!["unknown"@]);
    } else {
        proof {
            assert(strings_view(names@).contains(strings_view(names@)[0]));
        }
    }
    names
}

// ---------------------------------------------------------------------------
// The run snapshot
// ---------------------------------------------------------------------------

/// The snapshot written before a run: where it runs, what it sends to, and
/// with which settings. The request log path is kept only when logging is on.
pub fn build_run_metadata(
    bench_dir: &str,
    results_path: &str,
    started_at_unix_ms: u64,
    config: &Config,
    tests: &Vec<TestCase>,
) -> (m: RunMetadata)
    ensures
        m.schema_version == SCHEMA_VERSION,
        m.bench_dir@ == bench_dir@,
        m.results_path@ == results_path@,
        m.started_at_unix_ms == started_at_unix_ms,
        m.finished_at_unix_ms is None,
        m.duration_ms is None,
        m.test_count == tests@.len(),
        m.provider_model@ == config.provider.model@,
        m.provider_base_url@ == config.provider.base_url@,
        m.provider_request_style@ == config.provider.request_style.as_str_spec(),
        m.request_timeout_secs == config.run.request_timeout_secs,
        m.max_retries == config.run.max_retries,
        m.retry_backoff_ms == config.run.retry_backoff_ms,
        m.concurrency == if config.run.concurrency == 0 {
            1
        } else {
            config.run.concurrency
        },
        m.log_requests == config.run.log_requests,
        opt_view(m.request_log_path) == if config.run.log_requests {
            Some(config.run.request_log_path@)
        } else {
            None
        },
        suite_names_spec(tests@, strings_view(m.suites@)),
        m.fingerprints@.len() == 0,
{
    RunMetadata {
        schema_version: SCHEMA_VERSION,
        bench_dir: string_of(chars_of(bench_dir).as_slice()),
        results_path: string_of(chars_of(results_path).as_slice()),
        started_at_unix_ms,
        finished_at_unix_ms: None,
        duration_ms: None,
        test_count: tests.len(),
        provider_model: config.provider.model.clone(),
        provider_base_url: config.provider.base_url.clone(),
        provider_request_style: String::from_str(config.provider.request_style.as_str()),
        request_timeout_secs: config.run.request_timeout_secs,
        max_retries: config.run.max_retries,
        retry_backoff_ms: config.run.retry_backoff_ms,
        concurrency: if config.run.concurrency == 0 {
            1
        } else {
            config.run.concurrency
        },
        log_requests: config.run.log_requests,
        request_log_path: if config.run.log_requests {
            Some(config.run.request_log_path.clone())
        } else {
            None
        },
        suites: suite_names(tests),
        fingerprints: Vec::new(),
    }
}

/// The fingerprints of files read by a run, in the order given: each path
/// with the SHA-256 digest of the file's bytes.
pub fn fingerprint_files(files: &Vec<(String, Vec<u8>)>) -> (r: Vec<FileFingerprint>)
    ensures
        r@.len() == files@.len(),
        forall|k: int|
            0 <= k < r@.len() ==> (#[trigger] r@[k]).path@ == files@[k].0@ && r@[k].sha256@
                == spec_sha256_hex(files@[k].1@),
{
    let mut r: Vec<FileFingerprint> = Vec::new();
    let mut i: usize = 0;
    while i < files.len()
        invariant
            i <= files@.len(),
            r@.len() == i,
            forall|k: int|
                0 <= k < i ==> (#[trigger] r@[k]).path@ == files@[k].0@ && r@[k].sha256@
                    == spec_sha256_hex(files@[k].1@),
        decreases files@.len() - i,
    {
        let (path, bytes) = &files[i];
        r.push(FileFingerprint { path: path.clone(), sha256: crate::hashing::sha256_hex(bytes.as_slice()) });
        i = i + 1;
    }
    r
}

// ---------------------------------------------------------------------------
// The prompt
// ---------------------------------------------------------------------------

pub open spec fn prompt_spec(context: Seq<char>, question: Seq<char>) -> Seq<char> {
    "Use the context to answer the question.\n\nContext:\n"@ + context + "\n\nQuestion:\n"@
        + question + "\n\nAnswer:"@
}

pub fn build_prompt(context: &str, question: &str) -> (p: String)
    ensures
        p@ == prompt_spec(context@, question@),
{
    let mut r: Vec<char> = Vec::new();
    extend_str(&mut r, "Use the context to answer the question.\n\nContext:\n");
    extend_str(&mut r, context);
    extend_str(&mut r, "\n\nQuestion:\n");
    extend_str(&mut r, question);
    extend_str(&mut r, "\n\nAnswer:");
    string_of(r.as_slice())
}


// ---------------------------------------------------------------------------
// Provider replies
// ---------------------------------------------------------------------------

pub struct ResponsesContentItem {
    pub kind: Option<String>,
    pub text: Option<String>,
}

pub struct ResponsesOutputItem {
    pub content: Vec<ResponsesContentItem>,
}

pub struct ResponsesUsage {
    pub input_tokens: Option<u64>,
    pub output_tokens: Option<u64>,
}

/// The parts of a Responses API reply that the runner reads.
pub struct ResponsesResponse {
    pub output_text: Option<String>,
    pub output: Vec<ResponsesOutputItem>,
    pub usage: Option<ResponsesUsage>,
}

/// The trimmed, non-empty `output_text` chunks of some content items, in order.
pub open spec fn content_chunks(cs: Seq<ResponsesContentItem>) -> Seq<Seq<char>>
    decreases cs.len(),
{
    if cs.len() == 0 {
        seq![]
    } else {
        let c = cs.last();
        let prev = content_chunks(cs.drop_last());
        if opt_view(c.kind) == Some("output_text"@) && c.text is Some && trim_seq(
            c.text->0@,
        ).len() > 0 {
            prev.push(trim_seq(c.text->0@))
        } else {
            prev
        }
    }
}

pub open spec fn output_chunks(items: Seq<ResponsesOutputItem>) -> Seq<Seq<char>>
    decreases items.len(),
{
    if items.len() == 0 {
        seq![]
    } else {
        output_chunks(items.drop_last()) + content_chunks(items.last().content@)
    }
}

/// A Responses reply's answer: its trimmed `output_text` when that is not
/// empty, else the output text chunks joined by newlines.
pub open spec fn responses_answer_spec(r: ResponsesResponse) -> Seq<char> {
    match r.output_text {
        Some(t) if trim_seq(t@).len() > 0 => trim_seq(t@),
        _ => join_seq(output_chunks(r.output@), "\n"@),
    }
}

fn push_content_chunks(chunks: &mut Vec<String>, cs: &Vec<ResponsesContentItem>)
    ensures
        strings_view(final(chunks)@) == strings_view(old(chunks)@) + content_chunks(cs@),
{
    let ghost start = strings_view(chunks@);
    let mut j: usize = 0;
    while j < cs.len()
        invariant
            j <= cs@.len(),
            strings_view(chunks@) == start + content_chunks(cs@.take(j as int)),
        decreases cs@.len() - j,
    {
        let c = &cs[j];
        proof {
            assert(cs@.take(j as int + 1).drop_last() =~= cs@.take(j as int));
            assert(cs@.take(j as int + 1).last() == cs@[j as int]);
        }
        let ghost before = strings_view(chunks@);
        let mut is_text = false;
        if let Some(k) = &c.kind {
            let kc = chars_of(k.as_str());
            is_text = crate::text::slices_equal_chars(kc.as_slice(), chars_of("output_text").as_slice());
        }
        if is_text {
            if let Some(t) = &c.text {
                let tt = trim_str(t.as_str());
                if tt.len() > 0 {
                    chunks.push(string_of(tt.as_slice()));
                    assert(strings_view(chunks@) =~= before.push(tt@));
                }
            }
        }
        j = j + 1;
    }
    assert(cs@.take(cs@.len() as int) =~= cs@);
}

/// The answer text of a Responses API reply.
pub fn responses_answer(response: &ResponsesResponse) -> (a: String)
    ensures
        a@ == responses_answer_spec(*response),
{
    if let Some(t) = &response.output_text {
        let tt = trim_str(t.as_str());
        if tt.len() > 0 {
            return string_of(tt.as_slice());
        }
    }
    let mut chunks: Vec<String> = Vec::new();
    let mut i: usize = 0;
    while i < response.output.len()
        invariant
            i <= response.output@.len(),
            strings_view(chunks@) == output_chunks(response.output@.take(i as int)),
        decreases response.output@.len() - i,
    {
        proof {
            assert(response.output@.take(i as int + 1).drop_last() =~= response.output@.take(
                i as int,
            ));
            assert(response.output@.take(i as int + 1).last() == response.output@[i as int]);
        }
        push_content_chunks(&mut chunks, &response.output[i].content);
        i = i + 1;
    }
    assert(response.output@.take(response.output@.len() as int) =~= response.output@);
    string_of(join_strings(&chunks, "\n").as_slice())
}

/// A Chat Completions reply: the content of its first choice, and its usage.
pub struct ChatCompletionResponse {
    pub choices: Vec<String>,
    pub usage: Option<ChatUsage>,
}

pub struct ChatUsage {
    pub prompt_tokens: u64,
    pub completion_tokens: u64,
}

pub open spec fn chat_answer_spec(r: ChatCompletionResponse) -> Seq<char> {
    if r.choices@.len() > 0 {
        trim_seq(r.choices@[0]@)
    } else {
        seq![]
    }
}

/// The trimmed content of the first choice, or empty when there is none.
pub fn chat_answer(response: &ChatCompletionResponse) -> (a: String)
    ensures
        a@ == chat_answer_spec(*response),
{
    if response.choices.len() > 0 {
        string_of(trim_str(response.choices[0].as_str()).as_slice())
    } else {
        String::new()
    }
}

// ---------------------------------------------------------------------------
// Response headers
// ---------------------------------------------------------------------------

/// The value of the first header named `name`: `Some(None)` when it is there
/// but not visible ASCII text.
pub open spec fn header_lookup(headers: Seq<(String, Option<String>)>, name: Seq<char>) -> Option<
    Option<Seq<char>>,
>
    decreases headers.len(),
{
    if headers.len() == 0 {
        None
    } else if headers[0].0@ == name {
        Some(opt_view(headers[0].1))
    } else {
        header_lookup(headers.drop_first(), name)
    }
}

/// The trimmed text of a header when it is present, readable and not blank.
pub open spec fn header_text(headers: Seq<(String, Option<String>)>, name: Seq<char>) -> Option<
    Seq<char>,
> {
    match header_lookup(headers, name) {
        Some(Some(v)) if trim_seq(v).len() > 0 => Some(trim_seq(v)),
        _ => None,
    }
}

/// The first of `names` with a header text.
pub open spec fn first_header_text(
    headers: Seq<(String, Option<String>)>,
    names: Seq<Seq<char>>,
) -> Option<Seq<char>>
    decreases names.len(),
{
    if names.len() == 0 {
        None
    } else {
        match header_text(headers, names[0]) {
            Some(v) => Some(v),
            None => first_header_text(headers, names.drop_first()),
        }
    }
}

fn header_value(headers: &Vec<(String, Option<String>)>, name: &str) -> (r: Option<String>)
    ensures
        opt_view(r) == header_text(headers@, name@),
{
    let nc = chars_of(name);
    let mut i: usize = 0;
    assert(headers@.skip(0) =~= headers@);
    while i < headers.len()
        invariant
            i <= headers@.len(),
            nc@ == name@,
            header_lookup(headers@, name@) == header_lookup(headers@.skip(i as int), name@),
        decreases headers@.len() - i,
    {
        assert(headers@.skip(i as int)[0] == headers@[i as int]);
        assert(headers@.skip(i as int).drop_first() =~= headers@.skip(i as int + 1));
        let hc = chars_of(headers[i].0.as_str());
        if crate::text::slices_equal_chars(hc.as_slice(), nc.as_slice()) {
            match &headers[i].1 {
                Some(v) => {
                    let t = trim_str(v.as_str());
                    if t.len() > 0 {
                        return Some(string_of(t.as_slice()));
                    }
                    return None;
                },
                None => {
                    return None;
                },
            }
        }
        i = i + 1;
    }
    None
}

fn first_header_value(headers: &Vec<(String, Option<String>)>, names: &Vec<&str>) -> (r: Option<
    String,
>)
    ensures
        opt_view(r) == first_header_text(
            headers@,
            names@.map_values(|n: &str| n@),
        ),
{
    let ghost nv = names@.map_values(|n: &str| n@);
    let mut i: usize = 0;
    assert(nv.skip(0) =~= nv);
    while i < names.len()
        invariant
            i <= names@.len(),
            nv == names@.map_values(|n: &str| n@),
            first_header_text(headers@, nv) == first_header_text(headers@, nv.skip(i as int)),
        decreases names@.len() - i,
    {
        assert(nv.skip(i as int)[0] == names@[i as int]@);
        assert(nv.skip(i as int).drop_first() =~= nv.skip(i as int + 1));
        let v = header_value(headers, names[i]);
        if v.is_some() {
            return v;
        }
        i = i + 1;
    }
    None
}

pub open spec fn request_id_names() -> Seq<Seq<char>> {
    seq!["x-request-id"@, "x-openai-request-id"@, "openai-request-id"@]
}

/// The provider's request id: the first readable, non-blank one of
/// `x-request-id`, `x-openai-request-id` and `openai-request-id`.
pub fn provider_request_id(headers: &Vec<(String, Option<String>)>) -> (r: Option<String>)
    ensures
        opt_view(r) == first_header_text(headers@, request_id_names()),
{
    let names: Vec<&str> = vec!["x-request-id", "x-openai-request-id", "openai-request-id"];
    assert(names@.map_values(|n: &str| n@) =~= request_id_names());
    first_header_value(headers, &names)
}

/// The headers that stand for a rate-limit key: the remaining and reset
/// counters have per-request and per-token variants.
pub open spec fn rate_limit_names(key: Seq<char>) -> Seq<Seq<char>> {
    if key == "x-ratelimit-remaining"@ {
        seq![
            "x-ratelimit-remaining"@,
            "x-ratelimit-remaining-requests"@,
            "x-ratelimit-remaining-tokens"@,
        ]
    } else if key == "x-ratelimit-reset"@ {
        seq!["x-ratelimit-reset"@, "x-ratelimit-reset-requests"@, "x-ratelimit-reset-tokens"@]
    } else {
        seq![key]
    }
}

pub fn provider_rate_limit(headers: &Vec<(String, Option<String>)>, key: &str) -> (r: Option<
    String,
>)
    ensures
        opt_view(r) == first_header_text(headers@, rate_limit_names(key@)),
{
    let names: Vec<&str> = if crate::benchmark::str_eq(key, "x-ratelimit-remaining") {
        vec![
            "x-ratelimit-remaining",
            "x-ratelimit-remaining-requests",
            "x-ratelimit-remaining-tokens",
        ]
    } else if crate::benchmark::str_eq(key, "x-ratelimit-reset") {
        vec!["x-ratelimit-reset", "x-ratelimit-reset-requests", "x-ratelimit-reset-tokens"]
    } else {
        vec![key]
    };
    assert(names@.map_values(|n: &str| n@) =~= rate_limit_names(key@));
    first_header_value(headers, &names)
}


// ---------------------------------------------------------------------------
// Retries
// ---------------------------------------------------------------------------

pub open spec fn two_pow(e: nat) -> nat
    decreases e,
{
    if e == 0 {
        1
    } else {
        2 * two_pow((e - 1) as nat)
    }
}

/// The shift applied after `attempts` attempts: one less than the attempts,
/// at most ten.
pub open spec fn backoff_exponent(attempts: u32) -> nat {
    if attempts == 0 {
        0
    } else if attempts - 1 > 10 {
        10
    } else {
        (attempts - 1) as nat
    }
}

/// The wait before the next attempt, in milliseconds: the base backoff
/// doubled once per earlier retry (at most ten times), saturating at the
/// largest `u64`.
pub open spec fn retry_delay_spec(backoff_ms: u64, attempts: u32) -> u64 {
    let p = backoff_ms * two_pow(backoff_exponent(attempts));
    if p > u64::MAX {
        u64::MAX
    } else {
        p as u64
    }
}

pub fn retry_delay_ms(backoff_ms: u64, attempts: u32) -> (d: u64)
    ensures
        d == retry_delay_spec(backoff_ms, attempts),
{
    let exponent: u32 = if attempts == 0 {
        0
    } else if attempts - 1 > 10 {
        10
    } else {
        attempts - 1
    };
    let mut multiplier: u64 = 1;
    let mut k: u32 = 0;
    while k < exponent
        invariant
            k <= exponent,
            exponent <= 10,
            multiplier as nat == two_pow(k as nat),
            two_pow(k as nat) <= 1024,
        decreases exponent - k,
    {
        proof {
            lemma_two_pow_mono(k as nat + 1, 10);
        }
        multiplier = multiplier * 2;
        k = k + 1;
    }
    match backoff_ms.checked_mul(multiplier) {
        Some(p) => p,
        None => u64::MAX,
    }
}

proof fn lemma_two_pow_mono(a: nat, b: nat)
    requires
        a <= b,
    ensures
        two_pow(a) <= two_pow(b),
        two_pow(10) == 1024,
    decreases b,
{
    reveal_with_fuel(two_pow, 11);
    if a < b {
        lemma_two_pow_mono(a, (b - 1) as nat);
    }
}

/// The waits never shrink: each retry waits at least as long as the one
/// before it.
pub proof fn lemma_retry_delay_monotone(backoff_ms: u64, attempts: u32)
    requires
        attempts < u32::MAX,
    ensures
        retry_delay_spec(backoff_ms, attempts) <= retry_delay_spec(backoff_ms, (attempts + 1) as u32),
{
    let e1 = backoff_exponent(attempts);
    let e2 = backoff_exponent((attempts + 1) as u32);
    lemma_two_pow_mono(e1, e2);
    assert(backoff_ms * two_pow(e1) <= backoff_ms * two_pow(e2)) by (nonlinear_arith)
        requires
            two_pow(e1) <= two_pow(e2),
    ;
}

pub uninterp spec fn spec_duration_from_millis(ms: u64) -> std::time::Duration;

/// Calls `std::time::Duration::from_millis`; the duration is named by the
/// milliseconds it was made from.
#[verifier::external_body]
fn duration_from_millis(ms: u64) -> (d: std::time::Duration)
    ensures
        d == spec_duration_from_millis(ms),
{
    std::time::Duration::from_millis(ms)
}

/// The wait before retrying after `attempts_so_far` attempts.
pub fn retry_delay(run: &RunConfig, attempts_so_far: u32) -> (d: std::time::Duration)
    ensures
        d == spec_duration_from_millis(retry_delay_spec(run.retry_backoff_ms, attempts_so_far)),
{
    duration_from_millis(retry_delay_ms(run.retry_backoff_ms, attempts_so_far))
}

/// Statuses worth another attempt: 408, 429, 502, 503, 504 and every other
/// server error.
pub open spec fn retryable_status_spec(status: u16) -> bool {
    status == 408 || status == 429 || status == 502 || status == 503 || status == 504 || (500
        <= status && status <= 599)
}

pub fn is_retryable_status(status: u16) -> (b: bool)
    ensures
        b == retryable_status_spec(status),
{
    status == 408 || status == 429 || status == 502 || status == 503 || status == 504 || (500
        <= status && status <= 599)
}

/// The attempts a request gets: one more than the retries, saturating.
pub open spec fn max_attempts_spec(max_retries: u32) -> u32 {
    if max_retries == u32::MAX {
        u32::MAX
    } else {
        (max_retries + 1) as u32
    }
}

/// Which statuses a retry loop treats as transient.
#[derive(PartialEq, Eq, Structural, Clone, Copy, Debug)]
pub enum RetryPolicy {
    /// Benchmark requests: 408, 429 and every 5xx.
    Provider,
    /// Judge requests: 408, 429, 500, 502, 503 and 504.
    Judge,
}

pub open spec fn policy_retries_status(policy: RetryPolicy, status: u16) -> bool {
    match policy {
        RetryPolicy::Provider => retryable_status_spec(status),
        RetryPolicy::Judge => crate::grader::judge_retryable_spec(status),
    }
}

/// What to do after one attempt of a request.
#[derive(PartialEq, Eq, Structural, Clone, Copy, Debug)]
pub enum AttemptVerdict {
    /// The response is final: use it.
    Accept,
    /// Wait this long and send again.
    Retry { delay_ms: u64 },
    /// The failure is final.
    GiveUp,
}

/// The attempt counter of a request that may be retried.
pub struct RetryLoop {
    pub policy: RetryPolicy,
    pub attempts: u32,
    pub max_attempts: u32,
    pub backoff_ms: u64,
}

impl RetryLoop {
    pub open spec fn wf(self) -> bool {
        1 <= self.max_attempts && self.attempts <= self.max_attempts
    }

    pub fn new(policy: RetryPolicy, max_retries: u32, backoff_ms: u64) -> (l: Self)
        ensures
            l.wf(),
            l.policy == policy,
            l.attempts == 0,
            l.max_attempts == max_attempts_spec(max_retries),
            l.backoff_ms == backoff_ms,
    {
        let max_attempts = if max_retries == u32::MAX {
            u32::MAX
        } else {
            max_retries + 1
        };
        RetryLoop { policy, attempts: 0, max_attempts, backoff_ms }
    }

    /// Counts one more attempt; there must be one left.
    pub fn begin_attempt(&mut self) -> (n: u32)
        requires
            old(self).wf(),
            old(self).attempts < old(self).max_attempts,
        ensures
            final(self).wf(),
            final(self).attempts == old(self).attempts + 1,
            final(self).max_attempts == old(self).max_attempts,
            final(self).policy == old(self).policy,
            final(self).backoff_ms == old(self).backoff_ms,
            n == final(self).attempts,
    {
        self.attempts = self.attempts + 1;
        self.attempts
    }

    /// After a response with an HTTP status: success is accepted, a
    /// transient failure is retried while attempts remain.
    pub fn after_status(&self, status: u16) -> (v: AttemptVerdict)
        requires
            self.wf(),
        ensures
            200 <= status <= 299 ==> v == AttemptVerdict::Accept,
            !(200 <= status <= 299) ==> v == if policy_retries_status(self.policy, status)
                && self.attempts < self.max_attempts {
                AttemptVerdict::Retry { delay_ms: retry_delay_spec(self.backoff_ms, self.attempts) }
            } else {
                AttemptVerdict::GiveUp
            },
    {
        if 200 <= status && status <= 299 {
            return AttemptVerdict::Accept;
        }
        let retryable = match self.policy {
            RetryPolicy::Provider => is_retryable_status(status),
            RetryPolicy::Judge => crate::grader::is_judge_retryable_status(status),
        };
        if retryable && self.attempts < self.max_attempts {
            AttemptVerdict::Retry { delay_ms: retry_delay_ms(self.backoff_ms, self.attempts) }
        } else {
            AttemptVerdict::GiveUp
        }
    }

    /// After a request that got no response: a transient transport error is
    /// retried while attempts remain.
    pub fn after_transport_error(&self, retryable: bool) -> (v: AttemptVerdict)
        requires
            self.wf(),
        ensures
            v == if retryable && self.attempts < self.max_attempts {
                AttemptVerdict::Retry { delay_ms: retry_delay_spec(self.backoff_ms, self.attempts) }
            } else {
                AttemptVerdict::GiveUp
            },
    {
        if retryable && self.attempts < self.max_attempts {
            AttemptVerdict::Retry { delay_ms: retry_delay_ms(self.backoff_ms, self.attempts) }
        } else {
            AttemptVerdict::GiveUp
        }
    }
}


// ---------------------------------------------------------------------------
// Resolving a test's context
// ---------------------------------------------------------------------------

/// The path the router selects for a test, if it selects one.
pub open spec fn routed_path_spec(test: TestCase, index: ContextIndex) -> Option<Seq<char>> {
    let ranked = ranked_spec(test, index);
    if ranked.len() > 0 && crate::context_index::accept_spec(
        ranked[0].2,
        crate::context_index::second_score(ranked),
        ranked.len(),
    ) {
        Some(ranked[0].1)
    } else {
        None
    }
}

pub open spec fn route_failure_message(id: Seq<char>, reason: Option<Seq<char>>) -> Seq<char> {
    "context routing failed for "@ + id + ": "@ + match reason {
        Some(r) => r,
        None => "no context candidate selected"@,
    }
}

pub open spec fn no_index_message() -> Seq<char> {
    "context routing requested but context index is unavailable"@
}

/// The context a test runs with: its own reference, or, for `auto`, the path
/// the router selects. A failure carries its message and the decision made.
pub fn resolve_context_reference(test: &TestCase, context_index: Option<&ContextIndex>) -> (r:
    Result<(String, Option<RoutingDecision>), (String, Option<RoutingDecision>)>)
    ensures
        !is_auto_spec(test.context@) ==> (r matches Ok((c, d)) && c@ == test.context@ && d is None),
        is_auto_spec(test.context@) && context_index is None ==> (r matches Err((m, d)) && m@
            == no_index_message() && d is None),
        is_auto_spec(test.context@) && context_index is Some ==> ({
            let index = *context_index->0;
            match routed_path_spec(*test, index) {
                Some(p) => r matches Ok((c, Some(d))) && c@ == p && route_spec(*test, index, d),
                None => r matches Err((m, Some(d))) && route_spec(*test, index, d) && m@
                    == route_failure_message(test.id@, opt_view(d.reason)),
            }
        }),
{
    if !is_auto_context(test.context.as_str()) {
        return Ok((test.context.clone(), None));
    }
    let index = match context_index {
        Some(index) => index,
        None => {
            return Err((
                String::from_str("context routing requested but context index is unavailable"),
                None,
            ));
        },
    };
    let decision = route_context(test, index);
    match &decision.selected_context_path {
        Some(path) => {
            let p = path.clone();
            Ok((p, Some(decision)))
        },
        None => {
            let mut m: Vec<char> = Vec::new();
            extend_str(&mut m, "context routing failed for ");
            extend_str(&mut m, test.id.as_str());
            extend_str(&mut m, ": ");
            match &decision.reason {
                Some(reason) => extend_str(&mut m, reason.as_str()),
                None => extend_str(&mut m, "no context candidate selected"),
            }
            Err((string_of(m.as_slice()), Some(decision)))
        },
    }
}

/// Where a context reference is read from.
#[derive(PartialEq, Eq, Structural, Clone, Copy, Debug)]
pub enum ContextSource {
    /// The reference itself, as an absolute path.
    Absolute,
    /// The reference taken relative to the benchmark directory.
    UnderBenchDir,
    /// The reference taken relative to the working directory.
    AsGiven,
    /// No such file: the reference is the context text itself.
    Inline,
}

/// An absolute path that exists is read as is; otherwise a path under the
/// benchmark directory, then one relative to the working directory; a
/// reference that names no file is inline text.
pub fn context_source(
    is_absolute: bool,
    absolute_exists: bool,
    under_bench_dir_exists: bool,
    as_given_exists: bool,
) -> (s: ContextSource)
    ensures
        s == if is_absolute && absolute_exists {
            ContextSource::Absolute
        } else if under_bench_dir_exists {
            ContextSource::UnderBenchDir
        } else if as_given_exists {
            ContextSource::AsGiven
        } else {
            ContextSource::Inline
        },
{
    if is_absolute && absolute_exists {
        ContextSource::Absolute
    } else if under_bench_dir_exists {
        ContextSource::UnderBenchDir
    } else if as_given_exists {
        ContextSource::AsGiven
    } else {
        ContextSource::Inline
    }
}

// ---------------------------------------------------------------------------
// Provider outcomes
// ---------------------------------------------------------------------------

/// The status and headers of a provider response.
pub struct ResponseMeta {
    pub http_status: Option<u16>,
    pub request_id: Option<String>,
    pub rate_limit_remaining: Option<String>,
    pub rate_limit_reset: Option<String>,
}

pub struct ProviderOutput {
    pub answer: String,
    pub attempts: u32,
    pub http_status: Option<u16>,
    pub request_id: Option<String>,
    pub rate_limit_remaining: Option<String>,
    pub rate_limit_reset: Option<String>,
    pub input_tokens: u64,
    pub output_tokens: u64,
}

pub struct ProviderFailure {
    pub error: String,
    pub attempts: u32,
    pub kind: ErrorKind,
    pub http_status: Option<u16>,
    pub request_id: Option<String>,
    pub rate_limit_remaining: Option<String>,
    pub rate_limit_reset: Option<String>,
}

/// The answer and usage of a Chat Completions reply; counts the answer's
/// tokens when the reply reports no usage (0 where the encoder cannot count
/// them), and keeps the estimated prompt tokens then.
pub fn chat_output(
    response: &ChatCompletionResponse,
    meta: ResponseMeta,
    attempts: u32,
    estimated_input_tokens: u64,
    counter: &TokenCounter,
) -> (o: ProviderOutput)
    ensures
        o.answer@ == chat_answer_spec(*response),
        o.attempts == attempts,
        o.http_status == meta.http_status,
        o.request_id == meta.request_id,
        o.rate_limit_remaining == meta.rate_limit_remaining,
        o.rate_limit_reset == meta.rate_limit_reset,
        o.input_tokens == match response.usage {
            Some(u) => u.prompt_tokens,
            None => estimated_input_tokens,
        },
        o.output_tokens == match response.usage {
            Some(u) => u.completion_tokens,
            None => token_count_or_zero(counter@, chat_answer_spec(*response)),
        },
{
    let answer = chat_answer(response);
    let (input_tokens, output_tokens) = match &response.usage {
        Some(u) => (u.prompt_tokens, u.completion_tokens),
        None => (
            estimated_input_tokens,
            match counter.count_tokens(answer.as_str()) {
                Some(n) => n,
                None => 0,
            },
        ),
    };
    ProviderOutput {
        answer,
        attempts,
        http_status: meta.http_status,
        request_id: meta.request_id,
        rate_limit_remaining: meta.rate_limit_remaining,
        rate_limit_reset: meta.rate_limit_reset,
        input_tokens,
        output_tokens,
    }
}

/// The answer and usage of a Responses reply; each usage figure it lacks is
/// estimated as for Chat Completions.
pub fn responses_output(
    response: &ResponsesResponse,
    meta: ResponseMeta,
    attempts: u32,
    estimated_input_tokens: u64,
    counter: &TokenCounter,
) -> (o: ProviderOutput)
    ensures
        o.answer@ == responses_answer_spec(*response),
        o.attempts == attempts,
        o.http_status == meta.http_status,
        o.request_id == meta.request_id,
        o.rate_limit_remaining == meta.rate_limit_remaining,
        o.rate_limit_reset == meta.rate_limit_reset,
        o.input_tokens == match response.usage {
            Some(ResponsesUsage { input_tokens: Some(t), .. }) => t,
            _ => estimated_input_tokens,
        },
        o.output_tokens == match response.usage {
            Some(ResponsesUsage { output_tokens: Some(t), .. }) => t,
            _ => token_count_or_zero(counter@, responses_answer_spec(*response)),
        },
{
    let answer = responses_answer(response);
    let mut input_tokens = estimated_input_tokens;
    let mut reported_output: Option<u64> = None;
    if let Some(u) = &response.usage {
        if let Some(t) = u.input_tokens {
            input_tokens = t;
        }
        reported_output = u.output_tokens;
    }
    let output_tokens = match reported_output {
        Some(t) => t,
        None => match counter.count_tokens(answer.as_str()) {
            Some(n) => n,
            None => 0,
        },
    };
    ProviderOutput {
        answer,
        attempts,
        http_status: meta.http_status,
        request_id: meta.request_id,
        rate_limit_remaining: meta.rate_limit_remaining,
        rate_limit_reset: meta.rate_limit_reset,
        input_tokens,
        output_tokens,
    }
}

/// How `reqwest::StatusCode` displays a status: the code and its canonical
/// reason phrase.
pub uninterp spec fn spec_status_display(status: u16) -> Option<Seq<char>>;

/// Calls `reqwest::StatusCode::from_u16` and formats the code with
/// `Display`; `None` stands for a code outside 100..=999, which it refuses.
#[verifier::external_body]
fn status_display(status: u16) -> (r: Option<String>)
    ensures
        opt_view(r) == spec_status_display(status),
{
    match reqwest::StatusCode::from_u16(status) {
        Ok(code) => Some(code.to_string()),
        Err(_) => None,
    }
}

pub open spec fn status_text_spec(status: u16) -> Seq<char> {
    match spec_status_display(status) {
        Some(t) => t,
        None => crate::text::dec(status as nat),
    }
}

/// A status as `reqwest` displays it, or its bare number.
pub fn status_text(status: u16) -> (t: String)
    ensures
        t@ == status_text_spec(status),
{
    match status_display(status) {
        Some(t) => t,
        None => string_of(crate::text::u64_to_chars(status as u64).as_slice()),
    }
}

pub open spec fn http_error_message(status: u16, body: Seq<char>) -> Seq<char> {
    "HTTP "@ + status_text_spec(status) + " from provider: "@ + trim_seq(body)
}

/// The failure of a request that got a non-success status and no retry.
pub fn http_failure(status: u16, body: &str, attempts: u32, meta: ResponseMeta) -> (f:
    ProviderFailure)
    ensures
        f.error@ == http_error_message(status, body@),
        f.attempts == attempts,
        f.kind == ErrorKind::Http,
        f.http_status == Some(status),
        f.request_id == meta.request_id,
        f.rate_limit_remaining == meta.rate_limit_remaining,
        f.rate_limit_reset == meta.rate_limit_reset,
{
    let mut m: Vec<char> = Vec::new();
    extend_str(&mut m, "HTTP ");
    extend_str(&mut m, status_text(status).as_str());
    extend_str(&mut m, " from provider: ");
    extend_chars(&mut m, trim_str(body).as_slice());
    ProviderFailure {
        error: string_of(m.as_slice()),
        attempts,
        kind: ErrorKind::Http,
        http_status: Some(status),
        request_id: meta.request_id,
        rate_limit_remaining: meta.rate_limit_remaining,
        rate_limit_reset: meta.rate_limit_reset,
    }
}

/// The failure of a successful response whose body did not decode.
pub fn decode_failure(status: u16, decode_error: &str, attempts: u32, meta: ResponseMeta) -> (f:
    ProviderFailure)
    ensures
        f.error@ == "failed to decode provider response: "@ + decode_error@,
        f.attempts == attempts,
        f.kind == ErrorKind::ResponseDecode,
        f.http_status == Some(status),
        f.request_id == meta.request_id,
        f.rate_limit_remaining == meta.rate_limit_remaining,
        f.rate_limit_reset == meta.rate_limit_reset,
{
    let mut m: Vec<char> = Vec::new();
    extend_str(&mut m, "failed to decode provider response: ");
    extend_str(&mut m, decode_error);
    ProviderFailure {
        error: string_of(m.as_slice()),
        attempts,
        kind: ErrorKind::ResponseDecode,
        http_status: Some(status),
        request_id: meta.request_id,
        rate_limit_remaining: meta.rate_limit_remaining,
        rate_limit_reset: meta.rate_limit_reset,
    }
}

/// The failure of a request that got no response.
pub fn transport_failure(error: &str, attempts: u32) -> (f: ProviderFailure)
    ensures
        f.error@ == error@,
        f.attempts == attempts,
        f.kind == ErrorKind::Transport,
        f.http_status is None,
        f.request_id is None,
        f.rate_limit_remaining is None,
        f.rate_limit_reset is None,
{
    ProviderFailure {
        error: string_of(chars_of(error).as_slice()),
        attempts,
        kind: ErrorKind::Transport,
        http_status: None,
        request_id: None,
        rate_limit_remaining: None,
        rate_limit_reset: None,
    }
}

// ---------------------------------------------------------------------------
// Benchmark results
// ---------------------------------------------------------------------------


pub fn clone_metadata(m: &Vec<(String, String)>) -> (r: Vec<(String, String)>)
    ensures
        r@ == m@,
{
    let mut r: Vec<(String, String)> = Vec::new();
    let mut i: usize = 0;
    while i < m.len()
        invariant
            i <= m@.len(),
            r@ == m@.take(i as int),
        decreases m@.len() - i,
    {
        let k = m[i].0.clone();
        let v = m[i].1.clone();
        r.push((k, v));
        proof {
            assert(m@.take(i as int + 1) =~= m@.take(i as int).push(m@[i as int]));
        }
        i = i + 1;
    }
    assert(m@.take(m@.len() as int) =~= m@);
    r
}

/// The fields every result of a test shares: its suite, token count, id,
/// provider and metadata.
pub open spec fn result_identifies(r: BenchmarkResult, test: TestCase, provider: ProviderConfig) -> bool {
    &&& r.schema_version == SCHEMA_VERSION
    &&& opt_view(r.suite) == suite_spec(test)
    &&& r.token_count == token_count_spec(test)
    &&& r.id@ == test.id@
    &&& opt_view(r.provider_model) == Some(provider.model@)
    &&& opt_view(r.provider_base_url) == Some(provider.base_url@)
    &&& r.metadata@ == test.metadata@
}

/// A result without a judge call.
pub open spec fn no_judge(r: BenchmarkResult) -> bool {
    &&& r.judge_latency_ms is None
    &&& r.judge_input_tokens is None
    &&& r.judge_output_tokens is None
    &&& r.judge_http_status is None
    &&& r.judge_attempts is None
    &&& r.judge_error is None
}

/// The result of a test that sent no request: it failed with `kind` and
/// `error` before any attempt.
pub open spec fn unsent_spec(
    r: BenchmarkResult,
    test: TestCase,
    provider: ProviderConfig,
    kind: ErrorKind,
    error: Seq<char>,
    routing: Option<RoutingDecision>,
    latency_ms: u64,
) -> bool {
    &&& result_identifies(r, test, provider)
    &&& no_judge(r)
    &&& !r.passed
    &&& r.attempts == 0
    &&& r.latency_ms == latency_ms
    &&& r.input_tokens == 0
    &&& r.output_tokens == 0
    &&& r.http_status is None
    &&& r.request_id is None
    &&& r.rate_limit_remaining is None
    &&& r.rate_limit_reset is None
    &&& r.answer is None
    &&& opt_view(r.error) == Some(error)
    &&& r.error_kind == Some(kind)
    &&& r.routing == routing
}

pub fn unsent_result(
    test: &TestCase,
    provider: &ProviderConfig,
    kind: ErrorKind,
    error: String,
    routing: Option<RoutingDecision>,
    latency_ms: u64,
) -> (r: BenchmarkResult)
    ensures
        unsent_spec(r, *test, *provider, kind, error@, routing, latency_ms),
{
    BenchmarkResult {
        schema_version: SCHEMA_VERSION,
        suite: suite_name(test),
        token_count: test_token_count(test),
        id: test.id.clone(),
        provider_model: Some(provider.model.clone()),
        provider_base_url: Some(provider.base_url.clone()),
        http_status: None,
        request_id: None,
        rate_limit_remaining: None,
        rate_limit_reset: None,
        passed: false,
        attempts: 0,
        latency_ms,
        input_tokens: 0,
        output_tokens: 0,
        answer: None,
        error: Some(error),
        error_kind: Some(kind),
        routing,
        judge_latency_ms: None,
        judge_input_tokens: None,
        judge_output_tokens: None,
        judge_http_status: None,
        judge_attempts: None,
        judge_error: None,
        metadata: clone_metadata(&test.metadata),
    }
}

/// The result of a test whose request failed for good.
pub open spec fn failed_spec(
    r: BenchmarkResult,
    test: TestCase,
    provider: ProviderConfig,
    failure: ProviderFailure,
    input_tokens: u64,
    routing: Option<RoutingDecision>,
    latency_ms: u64,
) -> bool {
    &&& result_identifies(r, test, provider)
    &&& no_judge(r)
    &&& !r.passed
    &&& r.attempts == failure.attempts
    &&& r.latency_ms == latency_ms
    &&& r.input_tokens == input_tokens
    &&& r.output_tokens == 0
    &&& r.http_status == failure.http_status
    &&& r.request_id == failure.request_id
    &&& r.rate_limit_remaining == failure.rate_limit_remaining
    &&& r.rate_limit_reset == failure.rate_limit_reset
    &&& r.answer is None
    &&& opt_view(r.error) == Some(failure.error@)
    &&& r.error_kind == Some(failure.kind)
    &&& r.routing == routing
}

pub fn error_result(
    test: &TestCase,
    provider: &ProviderConfig,
    failure: ProviderFailure,
    input_tokens: u64,
    routing: Option<RoutingDecision>,
    latency_ms: u64,
) -> (r: BenchmarkResult)
    ensures
        failed_spec(r, *test, *provider, failure, input_tokens, routing, latency_ms),
{
    BenchmarkResult {
        schema_version: SCHEMA_VERSION,
        suite: suite_name(test),
        token_count: test_token_count(test),
        id: test.id.clone(),
        provider_model: Some(provider.model.clone()),
        provider_base_url: Some(provider.base_url.clone()),
        http_status: failure.http_status,
        request_id: failure.request_id,
        rate_limit_remaining: failure.rate_limit_remaining,
        rate_limit_reset: failure.rate_limit_reset,
        passed: false,
        attempts: failure.attempts,
        latency_ms,
        input_tokens,
        output_tokens: 0,
        answer: None,
        error: Some(failure.error),
        error_kind: Some(failure.kind),
        routing,
        judge_latency_ms: None,
        judge_input_tokens: None,
        judge_output_tokens: None,
        judge_http_status: None,
        judge_attempts: None,
        judge_error: None,
        metadata: clone_metadata(&test.metadata),
    }
}

/// Whether an answer passed: the judge's verdict where one was asked,
/// else the test's own grader.
pub open spec fn verdict_spec(answer: Seq<char>, test: TestCase, judge: Option<LlmJudgeResult>) -> bool {
    match judge {
        Some(j) => j.passed,
        None => grade_spec(answer, test),
    }
}

pub open spec fn judge_failure_message(e: Seq<char>) -> Seq<char> {
    "LLM judge failed: "@ + e
}

/// The result of a test whose answer came back: graded by the judge when
/// one was asked, else by the test's grader. A failed answer carries the
/// judge's error when the judge failed, else a validation error.
pub open spec fn graded_spec(
    r: BenchmarkResult,
    test: TestCase,
    provider: ProviderConfig,
    output: ProviderOutput,
    judge: Option<LlmJudgeResult>,
    routing: Option<RoutingDecision>,
    latency_ms: u64,
) -> bool {
    &&& result_identifies(r, test, provider)
    &&& r.passed == verdict_spec(output.answer@, test, judge)
    &&& r.attempts == output.attempts
    &&& r.latency_ms == latency_ms
    &&& r.input_tokens == output.input_tokens
    &&& r.output_tokens == output.output_tokens
    &&& r.http_status == output.http_status
    &&& r.request_id == output.request_id
    &&& r.rate_limit_remaining == output.rate_limit_remaining
    &&& r.rate_limit_reset == output.rate_limit_reset
    &&& opt_view(r.answer) == Some(output.answer@)
    &&& r.routing == routing
    &&& r.passed ==> r.error is None && r.error_kind is None
    &&& !r.passed ==> match judge {
        Some(LlmJudgeResult { error: Some(e), .. }) => opt_view(r.error) == Some(
            judge_failure_message(e@),
        ) && r.error_kind == Some(ErrorKind::Judge),
        _ => opt_view(r.error) == Some("answer did not satisfy grader"@) && r.error_kind
            == Some(ErrorKind::Validation),
    }
    &&& match judge {
        Some(j) => {
            &&& r.judge_latency_ms == Some(j.latency_ms)
            &&& r.judge_input_tokens == Some(j.input_tokens)
            &&& r.judge_output_tokens == Some(j.output_tokens)
            &&& r.judge_http_status == j.http_status
            &&& r.judge_attempts == Some(j.attempts)
            &&& opt_view(r.judge_error) == opt_view(j.error)
        },
        None => no_judge(r),
    }
}

pub fn graded_result(
    test: &TestCase,
    provider: &ProviderConfig,
    output: ProviderOutput,
    judge: Option<LlmJudgeResult>,
    routing: Option<RoutingDecision>,
    latency_ms: u64,
) -> (r: BenchmarkResult)
    ensures
        graded_spec(r, *test, *provider, output, judge, routing, latency_ms),
{
    let passed = match &judge {
        Some(j) => j.passed,
        None => grade(output.answer.as_str(), test),
    };
    let (judge_latency_ms, judge_input_tokens, judge_output_tokens, judge_http_status, judge_attempts,
        judge_error) = match judge {
        Some(j) => (
            Some(j.latency_ms),
            Some(j.input_tokens),
            Some(j.output_tokens),
            j.http_status,
            Some(j.attempts),
            j.error,
        ),
        None => (None, None, None, None, None, None),
    };
    let (error, error_kind) = if passed {
        (None, None)
    } else {
        match &judge_error {
            Some(e) => {
                let mut m: Vec<char> = Vec::new();
                extend_str(&mut m, "LLM judge failed: ");
                extend_str(&mut m, e.as_str());
                (Some(string_of(m.as_slice())), Some(ErrorKind::Judge))
            },
            None => (
                Some(String::from_str("answer did not satisfy grader")),
                Some(ErrorKind::Validation),
            ),
        }
    };
    BenchmarkResult {
        schema_version: SCHEMA_VERSION,
        suite: suite_name(test),
        token_count: test_token_count(test),
        id: test.id.clone(),
        provider_model: Some(provider.model.clone()),
        provider_base_url: Some(provider.base_url.clone()),
        http_status: output.http_status,
        request_id: output.request_id,
        rate_limit_remaining: output.rate_limit_remaining,
        rate_limit_reset: output.rate_limit_reset,
        passed,
        attempts: output.attempts,
        latency_ms,
        input_tokens: output.input_tokens,
        output_tokens: output.output_tokens,
        answer: Some(output.answer),
        error,
        error_kind,
        routing,
        judge_latency_ms,
        judge_input_tokens,
        judge_output_tokens,
        judge_http_status,
        judge_attempts,
        judge_error,
        metadata: clone_metadata(&test.metadata),
    }
}


// ---------------------------------------------------------------------------
// Request logs
// ---------------------------------------------------------------------------

/// One line of the request log: what was sent and received, with the prompt
/// and the reply replaced by their SHA-256 digests.
pub struct HttpExchangeLog {
    pub schema_version: u32,
    pub logged_at_unix_ms: u64,
    pub id: String,
    pub suite: Option<String>,
    pub request_id: Option<String>,
    pub http_status: Option<u16>,
    pub attempts: u32,
    pub latency_ms: u64,
    pub input_tokens: u64,
    pub output_tokens: u64,
    pub passed: bool,
    pub error_kind: Option<ErrorKind>,
    pub routing_status: Option<String>,
    pub routing_reason: Option<String>,
    pub selected_context_path: Option<String>,
    pub request_sha256: Option<String>,
    pub response_sha256: Option<String>,
}

/// The context a logged request was built from: the routed path when the
/// router selected one, else the test's own reference; none for a result
/// that sent nothing.
pub open spec fn logged_context_spec(test: TestCase, result: BenchmarkResult) -> Option<Seq<char>> {
    if result.attempts == 0 {
        None
    } else {
        match result.routing {
            Some(RoutingDecision { selected_context_path: Some(p), .. }) => Some(p@),
            _ => Some(test.context@),
        }
    }
}

pub fn logged_context_reference(test: &TestCase, result: &BenchmarkResult) -> (r: Option<String>)
    ensures
        opt_view(r) == logged_context_spec(*test, *result),
{
    if result.attempts == 0 {
        return None;
    }
    match &result.routing {
        Some(d) => match &d.selected_context_path {
            Some(p) => Some(p.clone()),
            None => Some(test.context.clone()),
        },
        None => Some(test.context.clone()),
    }
}

pub open spec fn digest_of(text: Seq<char>) -> Seq<char> {
    spec_sha256_hex(vstd::utf8::encode_utf8(text))
}

/// The log line of one result. `context` is the text of the context the
/// request was built from, where it could be loaded again; the request is
/// logged as the digest of the prompt built from it.
pub fn request_log_entry(
    test: &TestCase,
    result: &BenchmarkResult,
    context: Option<&str>,
    logged_at_unix_ms: u64,
) -> (e: HttpExchangeLog)
    ensures
        e.schema_version == SCHEMA_VERSION,
        e.logged_at_unix_ms == logged_at_unix_ms,
        e.id@ == result.id@,
        e.suite == result.suite,
        e.request_id == result.request_id,
        e.http_status == result.http_status,
        e.attempts == result.attempts,
        e.latency_ms == result.latency_ms,
        e.input_tokens == result.input_tokens,
        e.output_tokens == result.output_tokens,
        e.passed == result.passed,
        e.error_kind == result.error_kind,
        match result.routing {
            Some(d) => {
                &&& e.routing_status == Some(d.status)
                &&& e.routing_reason == d.reason
                &&& e.selected_context_path == d.selected_context_path
            },
            None => {
                &&& e.routing_status is None
                &&& e.routing_reason is None
                &&& e.selected_context_path is None
            },
        },
        opt_view(e.request_sha256) == match context {
            Some(c) => Some(digest_of(prompt_spec(c@, test.question@))),
            None => None,
        },
        opt_view(e.response_sha256) == match (result.answer, result.error) {
            (Some(a), _) => Some(digest_of(a@)),
            (None, Some(err)) => Some(digest_of(err@)),
            (None, None) => None,
        },
{
    let request_sha256 = match context {
        Some(c) => {
            let prompt = build_prompt(c, test.question.as_str());
            Some(sha256_hex_of_str(prompt.as_str()))
        },
        None => None,
    };
    let response_sha256 = match &result.answer {
        Some(a) => Some(sha256_hex_of_str(a.as_str())),
        None => match &result.error {
            Some(err) => Some(sha256_hex_of_str(err.as_str())),
            None => None,
        },
    };
    let (routing_status, routing_reason, selected_context_path) = match &result.routing {
        Some(d) => (
            Some(d.status.clone()),
            clone_opt(&d.reason),
            clone_opt(&d.selected_context_path),
        ),
        None => (None, None, None),
    };
    HttpExchangeLog {
        schema_version: SCHEMA_VERSION,
        logged_at_unix_ms,
        id: result.id.clone(),
        suite: clone_opt(&result.suite),
        request_id: clone_opt(&result.request_id),
        http_status: result.http_status,
        attempts: result.attempts,
        latency_ms: result.latency_ms,
        input_tokens: result.input_tokens,
        output_tokens: result.output_tokens,
        passed: result.passed,
        error_kind: result.error_kind,
        routing_status,
        routing_reason,
        selected_context_path,
        request_sha256,
        response_sha256,
    }
}

// ---------------------------------------------------------------------------
// Selecting tests, and the dry run
// ---------------------------------------------------------------------------

/// A test matches a filter when its id or its suite contains the text.
pub open spec fn matches_filter(test: TestCase, filter: Option<Seq<char>>) -> bool {
    match filter {
        None => true,
        Some(f) => has_sub(test.id@, f) || match suite_spec(test) {
            Some(s) => has_sub(s, f),
            None => false,
        },
    }
}

/// The positions of the tests that match the filter, in order.
pub open spec fn matching_positions(tests: Seq<TestCase>, filter: Option<Seq<char>>) -> Seq<int>
    decreases tests.len(),
{
    if tests.len() == 0 {
        seq![]
    } else {
        let prev = matching_positions(tests.drop_last(), filter);
        if matches_filter(tests.last(), filter) {
            prev.push(tests.len() - 1)
        } else {
            prev
        }
    }
}

/// The selected positions: the matching ones, cut to `limit` when given.
pub open spec fn selection_spec(
    tests: Seq<TestCase>,
    filter: Option<Seq<char>>,
    limit: Option<usize>,
) -> Seq<int> {
    let m = matching_positions(tests, filter);
    match limit {
        Some(n) if n < m.len() => m.take(n as int),
        _ => m,
    }
}

proof fn lemma_matching_positions(tests: Seq<TestCase>, filter: Option<Seq<char>>)
    ensures
        forall|k: int|
            0 <= k < matching_positions(tests, filter).len() ==> {
                let i = #[trigger] matching_positions(tests, filter)[k];
                &&& 0 <= i < tests.len()
                &&& matches_filter(tests[i], filter)
            },
        forall|a: int, b: int|
            0 <= a < b < matching_positions(tests, filter).len() ==> matching_positions(tests, filter)[a]
                < matching_positions(tests, filter)[b],
        forall|i: int|
            0 <= i < tests.len() && matches_filter(#[trigger] tests[i], filter) ==> matching_positions(
                tests,
                filter,
            ).contains(i),
    decreases tests.len(),
{
    if tests.len() > 0 {
        let p = tests.drop_last();
        lemma_matching_positions(p, filter);
        let mp = matching_positions(p, filter);
        assert forall|k: int| 0 <= k < mp.len() implies #[trigger] tests[mp[k]] == p[mp[k]] by {}
        assert forall|i: int|
            0 <= i < tests.len() && matches_filter(#[trigger] tests[i], filter) implies matching_positions(
                tests,
                filter,
            ).contains(i) by {
            if i < tests.len() - 1 {
                assert(tests[i] == p[i]);
                let k = choose|k: int| 0 <= k < mp.len() && mp[k] == i;
                assert(matching_positions(tests, filter)[k] == i);
            } else {
                assert(matching_positions(tests, filter).last() == i);
            }
        }
    }
}

/// Selection keeps the order of the tests, picks only tests that match the
/// filter, picks every match when no limit is given, and never more than
/// the limit.
pub proof fn lemma_selection_is_an_ordered_filter(
    tests: Seq<TestCase>,
    filter: Option<Seq<char>>,
    limit: Option<usize>,
)
    ensures
        forall|k: int|
            0 <= k < selection_spec(tests, filter, limit).len() ==> {
                let i = #[trigger] selection_spec(tests, filter, limit)[k];
                &&& 0 <= i < tests.len()
                &&& matches_filter(tests[i], filter)
            },
        forall|a: int, b: int|
            0 <= a < b < selection_spec(tests, filter, limit).len() ==> selection_spec(tests, filter, limit)[a]
                < selection_spec(tests, filter, limit)[b],
        limit matches Some(n) ==> selection_spec(tests, filter, limit).len() <= n,
        limit is None ==> forall|i: int|
            0 <= i < tests.len() && matches_filter(#[trigger] tests[i], filter) ==> selection_spec(
                tests,
                filter,
                limit,
            ).contains(i),
{
    lemma_matching_positions(tests, filter);
    let m = matching_positions(tests, filter);
    let sel = selection_spec(tests, filter, limit);
    assert forall|k: int| 0 <= k < sel.len() implies sel[k] == m[k] by {}
}

fn test_matches(test: &TestCase, filter: &Option<String>) -> (b: bool)
    ensures
        b == matches_filter(*test, opt_view(*filter)),
{
    match filter {
        None => true,
        Some(f) => {
            let fc = chars_of(f.as_str());
            if contains_chars(chars_of(test.id.as_str()).as_slice(), fc.as_slice()) {
                return true;
            }
            match suite_name(test) {
                Some(s) => contains_chars(chars_of(s.as_str()).as_slice(), fc.as_slice()),
                None => false,
            }
        },
    }
}

/// The tests a run selects: those whose id or suite contains the filter
/// text, in order, at most `limit` of them.
pub fn select_tests(tests: &Vec<TestCase>, filter: &Option<String>, limit: Option<usize>) -> (r:
    Vec<usize>)
    ensures
        r@.len() == selection_spec(tests@, opt_view(*filter), limit).len(),
        forall|k: int|
            0 <= k < r@.len() ==> r@[k] as int == #[trigger] selection_spec(
                tests@,
                opt_view(*filter),
                limit,
            )[k],
{
    let ghost f = opt_view(*filter);
    let mut r: Vec<usize> = Vec::new();
    let mut i: usize = 0;
    while i < tests.len()
        invariant
            i <= tests@.len(),
            f == opt_view(*filter),
            r@.len() == matching_positions(tests@.take(i as int), f).len(),
            forall|k: int|
                0 <= k < r@.len() ==> r@[k] as int == #[trigger] matching_positions(
                    tests@.take(i as int),
                    f,
                )[k],
            forall|k: int|
                0 <= k < matching_positions(tests@.take(i as int), f).len() ==> 0
                    <= #[trigger] matching_positions(tests@.take(i as int), f)[k] < i,
        decreases tests@.len() - i,
    {
        proof {
            assert(tests@.take(i as int + 1).drop_last() =~= tests@.take(i as int));
            assert(tests@.take(i as int + 1).last() == tests@[i as int]);
        }
        if test_matches(&tests[i], filter) {
            r.push(i);
        }
        i = i + 1;
    }
    assert(tests@.take(tests@.len() as int) =~= tests@);
    match limit {
        Some(n) => {
            if n < r.len() {
                r.truncate(n);
            }
        },
        None => {},
    }
    r
}

/// What a dry run checked: the selected tests, and how many of those with
/// an `auto` context the router could place.
pub struct DryRunSummary {
    pub selected_count: usize,
    pub total_count: usize,
    pub provider_model: String,
    pub auto_context_count: usize,
    pub routed_auto_context_count: usize,
    pub suites: Vec<String>,
}

pub open spec fn count_auto(tests: Seq<TestCase>) -> nat
    decreases tests.len(),
{
    if tests.len() == 0 {
        0
    } else {
        count_auto(tests.drop_last()) + if is_auto_spec(tests.last().context@) {
            1nat
        } else {
            0nat
        }
    }
}

pub open spec fn count_routed(tests: Seq<TestCase>, index: Option<ContextIndex>) -> nat
    decreases tests.len(),
{
    if tests.len() == 0 {
        0
    } else {
        count_routed(tests.drop_last(), index) + if is_auto_spec(tests.last().context@)
            && index is Some && routed_path_spec(tests.last(), index->0) is Some {
            1nat
        } else {
            0nat
        }
    }
}

proof fn lemma_counts_bounded(tests: Seq<TestCase>, index: Option<ContextIndex>)
    ensures
        count_routed(tests, index) <= count_auto(tests) <= tests.len(),
    decreases tests.len(),
{
    if tests.len() > 0 {
        lemma_counts_bounded(tests.drop_last(), index);
    }
}

/// The summary of a dry run over the selected tests.
pub fn dry_run_summary(
    config: &Config,
    total_count: usize,
    selected: &Vec<TestCase>,
    index: Option<&ContextIndex>,
) -> (s: DryRunSummary)
    ensures
        s.selected_count == selected@.len(),
        s.total_count == total_count,
        s.provider_model@ == config.provider.model@,
        s.auto_context_count as nat == count_auto(selected@),
        s.routed_auto_context_count as nat == count_routed(
            selected@,
            match index {
                Some(i) => Some(*i),
                None => None,
            },
        ),
        suite_names_spec(selected@, strings_view(s.suites@)),
{
    let ghost ix = match index {
        Some(i) => Some(*i),
        None => None,
    };
    let mut auto: usize = 0;
    let mut routed: usize = 0;
    let mut i: usize = 0;
    while i < selected.len()
        invariant
            i <= selected@.len(),
            ix == match index {
                Some(i) => Some(*i),
                None => None::<ContextIndex>,
            },
            auto as nat == count_auto(selected@.take(i as int)),
            routed as nat == count_routed(selected@.take(i as int), ix),
        decreases selected@.len() - i,
    {
        proof {
            assert(selected@.take(i as int + 1).drop_last() =~= selected@.take(i as int));
            assert(selected@.take(i as int + 1).last() == selected@[i as int]);
            lemma_counts_bounded(selected@.take(i as int), ix);
        }
        let t = &selected[i];
        if is_auto_context(t.context.as_str()) {
            auto = auto + 1;
            match index {
                Some(idx) => {
                    if let Ok(_) = resolve_context_reference(t, Some(idx)) {
                        routed = routed + 1;
                    }
                },
                None => {},
            }
        }
        i = i + 1;
    }
    assert(selected@.take(selected@.len() as int) =~= selected@);
    DryRunSummary {
        selected_count: selected.len(),
        total_count,
        provider_model: config.provider.model.clone(),
        auto_context_count: auto,
        routed_auto_context_count: routed,
        suites: suite_names(selected),
    }
}

/// Files that a run or an index writes next to the manifests; test
/// discovery skips them.
pub open spec fn generated_artifact_spec(name: Option<Seq<char>>) -> bool {
    match name {
        Some(n) => n == "context.index.json"@ || n == "results.json"@ || n == "run.json"@,
        None => false,
    }
}

pub fn is_generated_json_artifact(file_name: Option<&str>) -> (b: bool)
    ensures
        b == generated_artifact_spec(match file_name {
            Some(n) => Some(n@),
            None => None,
        }),
{
    match file_name {
        Some(n) => crate::benchmark::str_eq(n, "context.index.json") || crate::benchmark::str_eq(n, "results.json") || crate::benchmark::str_eq(n, "run.json"),
        None => false,
    }
}

// ---------------------------------------------------------------------------
// The run of one test
// ---------------------------------------------------------------------------

/// Where the run of one test stands.
#[derive(PartialEq, Eq, Structural, Clone, Copy, Debug)]
pub enum TestPhase {
    /// Waiting for the text of the context reference.
    ReadingContext,
    /// Waiting for the provider's answer to the prompt.
    CallingProvider,
    /// Waiting for the judge's verdict on the answer.
    CallingJudge,
    /// The result is recorded.
    Finished,
}

/// What the caller does next for a test.
/// The error of a test whose prompt's tokens cannot be counted.
pub open spec fn uncounted_prompt_message() -> Seq<char> {
    "failed to count the tokens of the prompt"@
}

pub enum TestAction {
    /// Read the text of this context reference.
    ReadContext { reference: String },
    /// Send this prompt to the provider.
    CallProvider { prompt: String, input_tokens: u64 },
    /// Ask the judge whether this answer is right, given the context.
    CallJudge { answer: String, context: String },
    /// Record this result; the test is done.
    Record { result: BenchmarkResult },
}

/// The run of one test: context resolution, the provider call, the judge
/// call for judged tests, and the result. The caller performs each action
/// and reports what came of it.
pub struct TestRun {
    pub test: TestCase,
    pub provider: ProviderConfig,
    pub phase: TestPhase,
    pub routing: Option<RoutingDecision>,
    pub context: String,
    pub input_tokens: u64,
    pub output: Option<ProviderOutput>,
}

impl TestRun {
    /// Resolves the test's context reference: a reference to read, or a
    /// routing failure recorded without any request.
    pub fn start(test: TestCase, provider: ProviderConfig, index: Option<&ContextIndex>, elapsed_ms: u64) -> (r: (
        TestRun,
        TestAction,
    ))
        ensures
            r.0.test == test,
            r.0.provider == provider,
            r.0.output is None,
            !is_auto_spec(test.context@) ==> {
                &&& r.0.phase == TestPhase::ReadingContext
                &&& r.1 matches TestAction::ReadContext { reference } && reference@ == test.context@
                &&& r.0.routing is None
            },
            is_auto_spec(test.context@) && index is None ==> {
                &&& r.0.phase == TestPhase::Finished
                &&& r.1 matches TestAction::Record { result } && unsent_spec(
                    result,
                    test,
                    provider,
                    ErrorKind::ContextRoute,
                    no_index_message(),
                    None,
                    elapsed_ms,
                )
            },
            is_auto_spec(test.context@) && index is Some ==> {
                let i = *index->0;
                match routed_path_spec(test, i) {
                    Some(p) => {
                        &&& r.0.phase == TestPhase::ReadingContext
                        &&& r.1 matches TestAction::ReadContext { reference } && reference@ == p
                        &&& r.0.routing matches Some(d) && route_spec(test, i, d)
                    },
                    None => {
                        &&& r.0.phase == TestPhase::Finished
                        &&& r.1 matches TestAction::Record { result } && result.routing matches Some(d)
                            && route_spec(test, i, d) && unsent_spec(
                            result,
                            test,
                            provider,
                            ErrorKind::ContextRoute,
                            route_failure_message(test.id@, opt_view(d.reason)),
                            Some(d),
                            elapsed_ms,
                        )
                    },
                }
            },
    {
        match resolve_context_reference(&test, index) {
            Ok((reference, routing)) => {
                let run = TestRun {
                    test,
                    provider,
                    phase: TestPhase::ReadingContext,
                    routing,
                    context: String::new(),
                    input_tokens: 0,
                    output: None,
                };
                (run, TestAction::ReadContext { reference })
            },
            Err((error, routing)) => {
                let result = unsent_result(&test, &provider, ErrorKind::ContextRoute, error, routing, elapsed_ms);
                let run = TestRun {
                    test,
                    provider,
                    phase: TestPhase::Finished,
                    routing: None,
                    context: String::new(),
                    input_tokens: 0,
                    output: None,
                };
                (run, TestAction::Record { result })
            },
        }
    }

    /// The context's text came back: the prompt is built from it and its
    /// tokens counted. A prompt whose tokens cannot be counted fails the test
    /// without a request.
    pub fn context_read(&mut self, text: String, counter: &TokenCounter) -> (a: TestAction)
        requires
            old(self).phase == TestPhase::ReadingContext,
        ensures
            final(self).test == old(self).test,
            final(self).provider == old(self).provider,
            match spec_token_count(counter@, prompt_spec(text@, old(self).test.question@)) {
                Some(n) => {
                    &&& final(self).phase == TestPhase::CallingProvider
                    &&& final(self).routing == old(self).routing
                    &&& final(self).output == old(self).output
                    &&& final(self).context@ == text@
                    &&& a matches TestAction::CallProvider { prompt, input_tokens } && prompt@ == prompt_spec(
                        text@,
                        old(self).test.question@,
                    ) && input_tokens == n && final(self).input_tokens == n
                },
                None => {
                    &&& final(self).phase == TestPhase::Finished
                    &&& a matches TestAction::Record { result } && unsent_spec(
                        result,
                        old(self).test,
                        old(self).provider,
                        ErrorKind::ContextLoad,
                        uncounted_prompt_message(),
                        old(self).routing,
                        0,
                    )
                },
            },
    {
        let prompt = build_prompt(text.as_str(), self.test.question.as_str());
        match counter.count_tokens(prompt.as_str()) {
            Some(input_tokens) => {
                self.context = text;
                self.input_tokens = input_tokens;
                self.phase = TestPhase::CallingProvider;
                TestAction::CallProvider { prompt, input_tokens }
            },
            None => {
                let routing = self.routing.take();
                self.phase = TestPhase::Finished;
                let result = unsent_result(
                    &self.test,
                    &self.provider,
                    ErrorKind::ContextLoad,
                    String::from_str("failed to count the tokens of the prompt"),
                    routing,
                    0,
                );
                TestAction::Record { result }
            },
        }
    }

    /// The context could not be read: the test fails without a request.
    pub fn context_failed(&mut self, error: String) -> (a: TestAction)
        requires
            old(self).phase == TestPhase::ReadingContext,
        ensures
            final(self).phase == TestPhase::Finished,
            a matches TestAction::Record { result } && unsent_spec(
                result,
                old(self).test,
                old(self).provider,
                ErrorKind::ContextLoad,
                error@,
                old(self).routing,
                0,
            ),
    {
        let routing = self.routing.take();
        self.phase = TestPhase::Finished;
        let result = unsent_result(&self.test, &self.provider, ErrorKind::ContextLoad, error, routing, 0);
        TestAction::Record { result }
    }

    /// The provider answered or failed for good. A failure is recorded; an
    /// answer is graded, after asking the judge when the test is judged.
    pub fn provider_done(&mut self, outcome: Result<ProviderOutput, ProviderFailure>, elapsed_ms: u64) -> (a:
        TestAction)
        requires
            old(self).phase == TestPhase::CallingProvider,
        ensures
            final(self).test == old(self).test,
            final(self).provider == old(self).provider,
            match outcome {
                Err(f) => {
                    &&& final(self).phase == TestPhase::Finished
                    &&& a matches TestAction::Record { result } && failed_spec(
                        result,
                        old(self).test,
                        old(self).provider,
                        f,
                        old(self).input_tokens,
                        old(self).routing,
                        elapsed_ms,
                    )
                },
                Ok(o) => if old(self).test.grader is LlmJudge {
                    &&& final(self).phase == TestPhase::CallingJudge
                    &&& final(self).output == Some(o)
                    &&& final(self).routing == old(self).routing
                    &&& a matches TestAction::CallJudge { answer, context } && answer@ == o.answer@
                        && context@ == old(self).context@
                } else {
                    &&& final(self).phase == TestPhase::Finished
                    &&& a matches TestAction::Record { result } && graded_spec(
                        result,
                        old(self).test,
                        old(self).provider,
                        o,
                        None,
                        old(self).routing,
                        elapsed_ms,
                    )
                },
            },
    {
        match outcome {
            Err(failure) => {
                let routing = self.routing.take();
                self.phase = TestPhase::Finished;
                let result = error_result(&self.test, &self.provider, failure, self.input_tokens, routing, elapsed_ms);
                TestAction::Record { result }
            },
            Ok(output) => {
                let judged = match self.test.grader {
                    Grader::LlmJudge => true,
                    _ => false,
                };
                if judged {
                    let answer = output.answer.clone();
                    let context = self.context.clone();
                    self.output = Some(output);
                    self.phase = TestPhase::CallingJudge;
                    TestAction::CallJudge { answer, context }
                } else {
                    let routing = self.routing.take();
                    self.phase = TestPhase::Finished;
                    let result = graded_result(&self.test, &self.provider, output, None, routing, elapsed_ms);
                    TestAction::Record { result }
                }
            },
        }
    }

    /// The judge answered: the answer is graded by its verdict.
    pub fn judge_done(&mut self, judge: LlmJudgeResult, elapsed_ms: u64) -> (a: TestAction)
        requires
            old(self).phase == TestPhase::CallingJudge,
            old(self).output is Some,
        ensures
            final(self).phase == TestPhase::Finished,
            a matches TestAction::Record { result } && graded_spec(
                result,
                old(self).test,
                old(self).provider,
                old(self).output->0,
                Some(judge),
                old(self).routing,
                elapsed_ms,
            ),
    {
        let routing = self.routing.take();
        let output = self.output.take().unwrap();
        self.phase = TestPhase::Finished;
        let result = graded_result(&self.test, &self.provider, output, Some(judge), routing, elapsed_ms);
        TestAction::Record { result }
    }
}

} // verus!
