use vstd::prelude::*;

use crate::context_index::opt_view;
use crate::probe::{display_opt, display_opt_spec, opt_tokens, ProbeAttemptSummary, ProbeOptions, ProbeSummary};
use crate::compare::{html_escape, push_escaped};
use crate::report::{group_labels, GroupCounts};
use crate::text::{
    ascii_lower_seq, chars_of, dec, extend_chars, extend_str, string_of, to_ascii_lowercase,
    u64_to_chars,
};

use crate::text::clone_opt;

verus! {

#[derive(PartialEq, Eq, Structural, Clone, Copy, Debug)]
pub enum ScoreProfile {
    Quick,
    Standard,
    Deep,
    MaxContext,
}

pub open spec fn profile_error(value: Seq<char>) -> Seq<char> {
    "unknown score profile '"@ + value
        + "', expected quick, standard, deep, or max-context"@
}

pub open spec fn profile_name_spec(p: ScoreProfile) -> Seq<char> {
    match p {
        ScoreProfile::Quick => "quick"@,
        ScoreProfile::Standard => "standard"@,
        ScoreProfile::Deep => "deep"@,
        ScoreProfile::MaxContext => "max-context"@,
    }
}

/// The profile a name stands for, matched without regard to ASCII case;
/// max-context may also be written max_context or maxcontext.
pub open spec fn parse_profile_spec(value: Seq<char>) -> Option<ScoreProfile> {
    let v = ascii_lower_seq(value);
    if v == "quick"@ {
        Some(ScoreProfile::Quick)
    } else if v == "standard"@ {
        Some(ScoreProfile::Standard)
    } else if v == "deep"@ {
        Some(ScoreProfile::Deep)
    } else if v == "max-context"@ || v == "max_context"@ || v == "maxcontext"@ {
        Some(ScoreProfile::MaxContext)
    } else {
        None
    }
}

/// The token counts a profile probes with.
pub struct ProfileDefaults {
    pub min_tokens: u64,
    pub max_tokens: u64,
    pub resolution_tokens: u64,
    pub capability_tokens: Option<u64>,
}

impl ScoreProfile {
    pub fn parse(value: &str) -> (r: Result<ScoreProfile, String>)
        ensures
            match parse_profile_spec(value@) {
                Some(p) => r == Ok::<ScoreProfile, String>(p),
                None => r matches Err(e) && e@ == profile_error(ascii_lower_seq(value@)),
            },
    {
        let v = to_ascii_lowercase(chars_of(value).as_slice());
        let s = string_of(v.as_slice());
        if crate::benchmark::str_eq(s.as_str(), "quick") {
            Ok(ScoreProfile::Quick)
        } else if crate::benchmark::str_eq(s.as_str(), "standard") {
            Ok(ScoreProfile::Standard)
        } else if crate::benchmark::str_eq(s.as_str(), "deep") {
            Ok(ScoreProfile::Deep)
        } else if crate::benchmark::str_eq(s.as_str(), "max-context")
            || crate::benchmark::str_eq(s.as_str(), "max_context")
            || crate::benchmark::str_eq(s.as_str(), "maxcontext") {
            Ok(ScoreProfile::MaxContext)
        } else {
            let mut m: Vec<char> = Vec::new();
            extend_str(&mut m, "unknown score profile '");
            extend_chars(&mut m, v.as_slice());
            extend_str(&mut m, "', expected quick, standard, deep, or max-context");
            Err(string_of(m.as_slice()))
        }
    }

    pub fn as_str(self) -> (s: &'static str)
        ensures
            s@ == profile_name_spec(self),
    {
        match self {
            ScoreProfile::Quick => "quick",
            ScoreProfile::Standard => "standard",
            ScoreProfile::Deep => "deep",
            ScoreProfile::MaxContext => "max-context",
        }
    }

    /// Every profile starts at 8,000 tokens. Quick stops at 64,000; the
    /// others go to 1,000,000, Deep with a finer 4,000-token resolution.
    /// The capability pass runs at 8,000, 32,000 and 128,000 tokens for
    /// Quick, Standard and Deep, and not at all for MaxContext.
    pub fn defaults(self) -> (d: ProfileDefaults)
        ensures
            d.min_tokens == 8_000,
            d.max_tokens == if self == ScoreProfile::Quick {
                64_000u64
            } else {
                1_000_000u64
            },
            d.resolution_tokens == if self == ScoreProfile::Deep {
                4_000u64
            } else {
                8_000u64
            },
            d.capability_tokens == match self {
                ScoreProfile::Quick => Some(8_000u64),
                ScoreProfile::Standard => Some(32_000u64),
                ScoreProfile::Deep => Some(128_000u64),
                ScoreProfile::MaxContext => None,
            },
    {
        match self {
            ScoreProfile::Quick => ProfileDefaults {
                min_tokens: 8_000,
                max_tokens: 64_000,
                resolution_tokens: 8_000,
                capability_tokens: Some(8_000),
            },
            ScoreProfile::Standard => ProfileDefaults {
                min_tokens: 8_000,
                max_tokens: 1_000_000,
                resolution_tokens: 8_000,
                capability_tokens: Some(32_000),
            },
            ScoreProfile::Deep => ProfileDefaults {
                min_tokens: 8_000,
                max_tokens: 1_000_000,
                resolution_tokens: 4_000,
                capability_tokens: Some(128_000),
            },
            ScoreProfile::MaxContext => ProfileDefaults {
                min_tokens: 8_000,
                max_tokens: 1_000_000,
                resolution_tokens: 8_000,
                capability_tokens: None,
            },
        }
    }
}

pub struct ScoreOptions {
    pub profile: ScoreProfile,
    pub config_path: Option<String>,
    pub min_tokens: Option<u64>,
    pub max_tokens: Option<u64>,
    pub resolution_tokens: Option<u64>,
    pub seed: u64,
    pub capability_tokens: Option<u64>,
    pub skip_capabilities: bool,
}

pub open spec fn or_default(o: Option<u64>, d: u64) -> u64 {
    match o {
        Some(v) => v,
        None => d,
    }
}

/// The probe a score runs: each token count as given, else the profile's;
/// no capability pass when skipped.
pub fn probe_options_for(options: ScoreOptions) -> (p: ProbeOptions)
    ensures
        p.min_tokens == or_default(
            options.min_tokens,
            8_000,
        ),
        p.max_tokens == or_default(
            options.max_tokens,
            if options.profile == ScoreProfile::Quick {
                64_000u64
            } else {
                1_000_000u64
            },
        ),
        p.resolution_tokens == or_default(
            options.resolution_tokens,
            if options.profile == ScoreProfile::Deep {
                4_000u64
            } else {
                8_000u64
            },
        ),
        p.seed == options.seed,
        p.config_path == options.config_path,
        p.capability_tokens == if options.skip_capabilities {
            None
        } else {
            match options.capability_tokens {
                Some(t) => Some(t),
                None => match options.profile {
                    ScoreProfile::Quick => Some(8_000u64),
                    ScoreProfile::Standard => Some(32_000u64),
                    ScoreProfile::Deep => Some(128_000u64),
                    ScoreProfile::MaxContext => None,
                },
            }
        },
{
    let d = options.profile.defaults();
    let min_tokens = match options.min_tokens {
        Some(v) => v,
        None => d.min_tokens,
    };
    let max_tokens = match options.max_tokens {
        Some(v) => v,
        None => d.max_tokens,
    };
    let resolution_tokens = match options.resolution_tokens {
        Some(v) => v,
        None => d.resolution_tokens,
    };
    let capability_tokens = if options.skip_capabilities {
        None
    } else {
        match options.capability_tokens {
            Some(t) => Some(t),
            None => d.capability_tokens,
        }
    };
    ProbeOptions {
        min_tokens,
        max_tokens,
        resolution_tokens,
        seed: options.seed,
        config_path: options.config_path,
        capability_tokens,
    }
}

// ---------------------------------------------------------------------------
// Categories
// ---------------------------------------------------------------------------

/// One scored category. Its score is a floating-point percentage computed
/// from these counts where the summary is written; `score_fmt` holds it
/// formatted, and is empty until then.
pub struct ScoreCategory {
    pub name: String,
    pub weight_percent: u64,
    pub passed: usize,
    pub total: usize,
    pub detail: String,
    pub score_fmt: String,
}

/// A category as plain values: name, weight in percent, passed, total,
/// detail and score text.
pub type CategoryView = (Seq<char>, u64, nat, nat, Seq<char>, Seq<char>);

pub open spec fn category_view(c: ScoreCategory) -> CategoryView {
    (c.name@, c.weight_percent, c.passed as nat, c.total as nat, c.detail@, c.score_fmt@)
}

pub open spec fn context_category_spec(max_context_tokens: Option<u64>, profile_max_tokens: u64, passed_any: bool) -> CategoryView {
    (
        "Context Capacity"@,
        35,
        if passed_any { 1 } else { 0 },
        1,
        dec(or_default(max_context_tokens, 0) as nat) + "/"@ + dec(profile_max_tokens as nat) + " tokens"@,
        Seq::empty(),
    )
}

pub open spec fn suite_category_spec(name: Seq<char>, weight_percent: u64, suites: Seq<GroupCounts>, names: Seq<Seq<char>>) -> CategoryView {
    let sums = suite_sums(suites, names);
    (
        name,
        weight_percent,
        sums.0,
        sums.1,
        if sums.1 == 0 {
            "not run"@
        } else {
            dec(sums.0) + "/"@ + dec(sums.1) + " passed"@
        },
        Seq::empty(),
    )
}

pub open spec fn latency_category_spec(avg_latency_ms: u64) -> CategoryView {
    ("Latency"@, 5, if avg_latency_ms > 0 { 1 } else { 0 }, 1, "avg "@ + dec(avg_latency_ms as nat) + " ms"@, Seq::empty())
}

/// The context category: passed when any probe passed, with the largest
/// passing token count against the profile's cap.
pub fn context_category(max_context_tokens: Option<u64>, profile_max_tokens: u64, passed_any: bool) -> (c:
    ScoreCategory)
    ensures
        c.name@ == "Context Capacity"@,
        c.weight_percent == 35,
        c.passed == if passed_any {
            1usize
        } else {
            0usize
        },
        c.total == 1,
        c.detail@ == dec(or_default(max_context_tokens, 0) as nat) + "/"@ + dec(
            profile_max_tokens as nat,
        ) + " tokens"@,
        c.score_fmt@.len() == 0,
        category_view(c) == context_category_spec(max_context_tokens, profile_max_tokens, passed_any),
{
    let tokens = match max_context_tokens {
        Some(t) => t,
        None => 0,
    };
    let mut d: Vec<char> = Vec::new();
    extend_chars(&mut d, u64_to_chars(tokens).as_slice());
    extend_str(&mut d, "/");
    extend_chars(&mut d, u64_to_chars(profile_max_tokens).as_slice());
    extend_str(&mut d, " tokens");
    ScoreCategory {
        name: String::from_str("Context Capacity"),
        weight_percent: 35,
        passed: if passed_any {
            1
        } else {
            0
        },
        total: 1,
        detail: string_of(d.as_slice()),
        score_fmt: String::new(),
    }
}

/// Passes and totals summed over the groups whose label is one of `names`.
pub open spec fn suite_sums(groups: Seq<GroupCounts>, names: Seq<Seq<char>>) -> (nat, nat)
    decreases groups.len(),
{
    if groups.len() == 0 {
        (0, 0)
    } else {
        let prev = suite_sums(groups.drop_last(), names);
        let g = groups.last();
        if names.contains(g.label@) {
            (prev.0 + g.passed as nat, prev.1 + g.total as nat)
        } else {
            prev
        }
    }
}

proof fn lemma_suite_sums_prefix(groups: Seq<GroupCounts>, names: Seq<Seq<char>>, k: int)
    requires
        0 <= k <= groups.len(),
        forall|i: int| 0 <= i < groups.len() ==> (#[trigger] groups[i]).passed <= groups[i].total,
    ensures
        suite_sums(groups.take(k), names).1 <= suite_sums(groups, names).1,
        suite_sums(groups.take(k), names).0 <= suite_sums(groups.take(k), names).1,
    decreases groups.len() - k,
{
    assert forall|i: int| 0 <= i < groups.take(k).len() implies (#[trigger] groups.take(k)[i]).passed
        <= groups.take(k)[i].total by {
        assert(groups.take(k)[i] == groups[i]);
    }
    lemma_sums_passed_le_total(groups.take(k), names);
    if k < groups.len() {
        lemma_suite_sums_prefix(groups, names, k + 1);
        assert(groups.take(k + 1).drop_last() =~= groups.take(k));
    } else {
        assert(groups.take(k) =~= groups);
        lemma_sums_passed_le_total(groups, names);
    }
}

proof fn lemma_sums_passed_le_total(groups: Seq<GroupCounts>, names: Seq<Seq<char>>)
    requires
        forall|i: int| 0 <= i < groups.len() ==> (#[trigger] groups[i]).passed <= groups[i].total,
    ensures
        suite_sums(groups, names).0 <= suite_sums(groups, names).1,
    decreases groups.len(),
{
    if groups.len() > 0 {
        lemma_sums_passed_le_total(groups.drop_last(), names);
        assert(groups.last() == groups[groups.len() - 1]);
    }
}

fn name_listed(names: &Vec<&str>, label: &str) -> (b: bool)
    ensures
        b == names@.map_values(|n: &str| n@).contains(label@),
{
    let ghost nv = names@.map_values(|n: &str| n@);
    let mut i: usize = 0;
    while i < names.len()
        invariant
            i <= names@.len(),
            nv == names@.map_values(|n: &str| n@),
            forall|k: int| 0 <= k < i ==> nv[k] != label@,
        decreases names@.len() - i,
    {
        if crate::benchmark::str_eq(names[i], label) {
            assert(nv[i as int] == label@);
            return true;
        }
        i = i + 1;
    }
    proof {
        if nv.contains(label@) {
            let k = choose|k: int| 0 <= k < nv.len() && nv[k] == label@;
            assert(nv[k] != label@);
        }
    }
    false
}

/// A capability category: the passes and totals of its suites, or "not
/// run" when none of them ran.
pub fn suite_category(name: &str, weight_percent: u64, suites: &Vec<GroupCounts>, names: &Vec<&str>) -> (c:
    ScoreCategory)
    requires
        forall|i: int| 0 <= i < suites@.len() ==> (#[trigger] suites@[i]).passed <= suites@[i].total,
        suite_sums(suites@, names@.map_values(|n: &str| n@)).1 <= usize::MAX,
    ensures
        c.name@ == name@,
        c.weight_percent == weight_percent,
        c.passed as nat == suite_sums(suites@, names@.map_values(|n: &str| n@)).0,
        c.total as nat == suite_sums(suites@, names@.map_values(|n: &str| n@)).1,
        c.detail@ == if c.total == 0 {
            "not run"@
        } else {
            dec(c.passed as nat) + "/"@ + dec(c.total as nat) + " passed"@
        },
        c.score_fmt@.len() == 0,
        category_view(c) == suite_category_spec(name@, weight_percent, suites@, names@.map_values(|n: &str| n@)),
{
    let ghost nv = names@.map_values(|n: &str| n@);
    let mut passed: usize = 0;
    let mut total: usize = 0;
    let mut i: usize = 0;
    while i < suites.len()
        invariant
            i <= suites@.len(),
            nv == names@.map_values(|n: &str| n@),
            forall|k: int| 0 <= k < suites@.len() ==> (#[trigger] suites@[k]).passed <= suites@[k].total,
            suite_sums(suites@, nv).1 <= usize::MAX,
            (passed as nat, total as nat) == suite_sums(suites@.take(i as int), nv),
        decreases suites@.len() - i,
    {
        proof {
            assert(suites@.take(i as int + 1).drop_last() =~= suites@.take(i as int));
            assert(suites@.take(i as int + 1).last() == suites@[i as int]);
            lemma_suite_sums_prefix(suites@, nv, i as int + 1);
        }
        if name_listed(names, suites[i].label.as_str()) {
            passed = passed + suites[i].passed;
            total = total + suites[i].total;
        }
        i = i + 1;
    }
    assert(suites@.take(suites@.len() as int) =~= suites@);
    let detail = if total == 0 {
        String::from_str("not run")
    } else {
        let mut d: Vec<char> = Vec::new();
        extend_chars(&mut d, u64_to_chars(passed as u64).as_slice());
        extend_str(&mut d, "/");
        extend_chars(&mut d, u64_to_chars(total as u64).as_slice());
        extend_str(&mut d, " passed");
        string_of(d.as_slice())
    };
    ScoreCategory {
        name: string_of(chars_of(name).as_slice()),
        weight_percent,
        passed,
        total,
        detail,
        score_fmt: String::new(),
    }
}

/// The latency score of an average latency: 100 up to 5 s, 85 up to 15 s,
/// 65 up to 30 s, 45 up to 60 s, else 25.
pub open spec fn latency_score_spec(avg_latency_ms: u64) -> u64 {
    if avg_latency_ms <= 5_000 {
        100
    } else if avg_latency_ms <= 15_000 {
        85
    } else if avg_latency_ms <= 30_000 {
        65
    } else if avg_latency_ms <= 60_000 {
        45
    } else {
        25
    }
}

pub fn latency_score(avg_latency_ms: u64) -> (s: u64)
    ensures
        s == latency_score_spec(avg_latency_ms),
{
    if avg_latency_ms <= 5_000 {
        100
    } else if avg_latency_ms <= 15_000 {
        85
    } else if avg_latency_ms <= 30_000 {
        65
    } else if avg_latency_ms <= 60_000 {
        45
    } else {
        25
    }
}

/// A slower average never scores higher.
pub proof fn lemma_latency_score_monotone(a: u64, b: u64)
    requires
        a <= b,
    ensures
        latency_score_spec(b) <= latency_score_spec(a),
{
}

/// The latency category: passed when any latency was measured.
pub fn latency_category(avg_latency_ms: u64) -> (c: ScoreCategory)
    ensures
        c.name@ == "Latency"@,
        c.weight_percent == 5,
        c.passed == if avg_latency_ms > 0 {
            1usize
        } else {
            0usize
        },
        c.total == 1,
        c.detail@ == "avg "@ + dec(avg_latency_ms as nat) + " ms"@,
        c.score_fmt@.len() == 0,
        category_view(c) == latency_category_spec(avg_latency_ms),
{
    let mut d: Vec<char> = Vec::new();
    extend_str(&mut d, "avg ");
    extend_chars(&mut d, u64_to_chars(avg_latency_ms).as_slice());
    extend_str(&mut d, " ms");
    ScoreCategory {
        name: String::from_str("Latency"),
        weight_percent: 5,
        passed: if avg_latency_ms > 0 {
            1
        } else {
            0
        },
        total: 1,
        detail: string_of(d.as_slice()),
        score_fmt: String::new(),
    }
}

pub open spec fn display_tokens_spec(value: Option<u64>) -> Seq<char> {
    match value {
        Some(v) => dec(v as nat),
        None => "none"@,
    }
}

pub fn display_tokens(value: Option<u64>) -> (s: String)
    ensures
        s@ == display_tokens_spec(value),
{
    match value {
        Some(v) => string_of(u64_to_chars(v).as_slice()),
        None => String::from_str("none"),
    }
}


// ---------------------------------------------------------------------------
// The score summary
// ---------------------------------------------------------------------------

pub struct ScoreArtifacts {
    pub score_json: String,
    pub score_html: String,
    pub probe_summary_json: String,
    pub capability_report_html: Option<String>,
}

/// A score: the probe it came from, its categories, and the overall score
/// formatted in `score_fmt` (empty until the weighted score is computed).
pub struct ScoreSummary {
    pub schema_version: u32,
    pub run_dir: String,
    pub profile: ScoreProfile,
    pub provider_model: String,
    pub provider_base_url: String,
    pub request_style: String,
    pub score_fmt: String,
    pub max_context_tokens: Option<u64>,
    pub max_context_input_tokens: Option<u64>,
    pub first_failure_tokens: Option<u64>,
    pub first_failure_http_status: Option<u16>,
    pub first_failure_error_kind: Option<String>,
    pub categories: Vec<ScoreCategory>,
    pub artifacts: ScoreArtifacts,
    pub probe: ProbeSummary,
}

pub open spec fn all_totals(groups: Seq<GroupCounts>) -> nat
    decreases groups.len(),
{
    if groups.len() == 0 {
        0
    } else {
        all_totals(groups.drop_last()) + groups.last().total as nat
    }
}

proof fn lemma_sums_within_totals(groups: Seq<GroupCounts>, names: Seq<Seq<char>>)
    ensures
        suite_sums(groups, names).1 <= all_totals(groups),
    decreases groups.len(),
{
    if groups.len() > 0 {
        lemma_sums_within_totals(groups.drop_last(), names);
    }
}

/// Counts a capability summary can be scored from: no group passes more
/// than it holds, and the totals fit in a `usize`.
pub open spec fn capability_counts_fit(groups: Seq<GroupCounts>) -> bool {
    &&& forall|i: int| 0 <= i < groups.len() ==> (#[trigger] groups[i]).passed <= groups[i].total
    &&& all_totals(groups) <= usize::MAX
}

pub open spec fn retrieval_suites() -> Seq<Seq<char>> {
    seq!["multi-needle"@, "position-sweep"@]
}

pub open spec fn reasoning_suites() -> Seq<Seq<char>> {
    seq!["conflict"@, "multi-hop"@, "order-dependent"@]
}

pub open spec fn hallucination_suites() -> Seq<Seq<char>> {
    seq!["hallucination"@]
}


/// The categories of a score: context capacity (weight 35) always; then,
/// when the capability pass ran, retrieval, reasoning and hallucination
/// resistance (weight 20 each) and latency (weight 5).
pub open spec fn score_categories_spec(max_tokens: u64, probe: ProbeSummary) -> Seq<CategoryView> {
    seq![context_category_spec(opt_tokens(probe.best_success), max_tokens, probe.best_success is Some)] + match probe.capabilities {
        Some(c) => seq![
            suite_category_spec("Retrieval"@, 20, c.summary.suites@, retrieval_suites()),
            suite_category_spec("Reasoning and Conflict"@, 20, c.summary.suites@, reasoning_suites()),
            suite_category_spec("Hallucination Resistance"@, 20, c.summary.suites@, hallucination_suites()),
            latency_category_spec(c.summary.avg_latency_ms),
        ],
        None => Seq::empty(),
    }
}

proof fn lemma_sums_split(groups: Seq<GroupCounts>, a: Seq<Seq<char>>, b: Seq<Seq<char>>)
    requires
        forall|x: Seq<char>| !(a.contains(x) && b.contains(x)),
    ensures
        suite_sums(groups, a).0 + suite_sums(groups, b).0 == suite_sums(groups, a + b).0,
        suite_sums(groups, a).1 + suite_sums(groups, b).1 == suite_sums(groups, a + b).1,
    decreases groups.len(),
{
    if groups.len() > 0 {
        lemma_sums_split(groups.drop_last(), a, b);
        let l = groups.last().label@;
        if (a + b).contains(l) {
            let i = choose|i: int| 0 <= i < (a + b).len() && (a + b)[i] == l;
            if i < a.len() {
                assert(a[i] == l);
            } else {
                assert(b[i - a.len()] == l);
            }
        }
        if a.contains(l) {
            let i = choose|i: int| 0 <= i < a.len() && a[i] == l;
            assert((a + b)[i] == l);
        }
        if b.contains(l) {
            let i = choose|i: int| 0 <= i < b.len() && b[i] == l;
            assert((a + b)[a.len() + i] == l);
        }
    }
}

/// With the capability pass, Retrieval counts the multi-needle and
/// position-sweep groups, Reasoning and Conflict the conflict, multi-hop and
/// order-dependent groups, and Hallucination Resistance the hallucination
/// groups: together the three count every group of those six suites, each
/// in one category.
pub proof fn lemma_score_categories_count_suites(max_tokens: u64, probe: ProbeSummary)
    requires
        probe.capabilities is Some,
    ensures
        ({
            let g = probe.capabilities->0.summary.suites@;
            let cats = score_categories_spec(max_tokens, probe);
            let r = seq!["multi-needle"@, "position-sweep"@];
            let c = seq!["conflict"@, "multi-hop"@, "order-dependent"@];
            let h = seq!["hallucination"@];
            &&& cats.len() == 5
            &&& cats[1].2 == suite_sums(g, r).0 && cats[1].3 == suite_sums(g, r).1
            &&& cats[2].2 == suite_sums(g, c).0 && cats[2].3 == suite_sums(g, c).1
            &&& cats[3].2 == suite_sums(g, h).0 && cats[3].3 == suite_sums(g, h).1
            &&& cats[1].3 + cats[2].3 + cats[3].3 == suite_sums(g, r + c + h).1
            &&& cats[1].2 + cats[2].2 + cats[3].2 == suite_sums(g, r + c + h).0
        }),
{
    let g = probe.capabilities->0.summary.suites@;
    let r = seq!["multi-needle"@, "position-sweep"@];
    let c = seq!["conflict"@, "multi-hop"@, "order-dependent"@];
    let h = seq!["hallucination"@];
    assert(r =~= retrieval_suites());
    assert(c =~= reasoning_suites());
    assert(h =~= hallucination_suites());
    reveal_strlit("multi-needle");
    reveal_strlit("position-sweep");
    reveal_strlit("conflict");
    reveal_strlit("multi-hop");
    reveal_strlit("order-dependent");
    reveal_strlit("hallucination");
    assert forall|x: Seq<char>| !(r.contains(x) && c.contains(x)) by {
        if r.contains(x) && c.contains(x) {
            let i = choose|i: int| 0 <= i < r.len() && r[i] == x;
            let j = choose|j: int| 0 <= j < c.len() && c[j] == x;
            assert(r[i][0] != c[j][0] || r[i].len() != c[j].len() || r[i][6] != c[j][6]);
        }
    }
    lemma_sums_split(g, r, c);
    assert forall|x: Seq<char>| !((r + c).contains(x) && h.contains(x)) by {
        if (r + c).contains(x) && h.contains(x) {
            let i = choose|i: int| 0 <= i < (r + c).len() && (r + c)[i] == x;
            assert(h[0] == x);
            assert((r + c)[i].len() != h[0].len() || (r + c)[i][0] != h[0][0]);
        }
    }
    lemma_sums_split(g, r + c, h);
}

/// The categories of a score: context capacity always; retrieval, reasoning,
/// hallucination resistance and latency when the capability pass ran.
pub fn build_score_summary(
    profile: ScoreProfile,
    max_tokens: u64,
    run_dir: &str,
    probe_summary_json: &str,
    probe: ProbeSummary,
) -> (s: ScoreSummary)
    requires
        probe.capabilities matches Some(c) ==> capability_counts_fit(c.summary.suites@),
    ensures
        s.schema_version == 1,
        s.run_dir@ == run_dir@,
        s.profile == profile,
        s.provider_model@ == probe.provider_model@,
        s.provider_base_url@ == probe.provider_base_url@,
        s.request_style@ == probe.request_style@,
        s.score_fmt@.len() == 0,
        s.max_context_tokens == opt_tokens(probe.best_success),
        s.max_context_input_tokens == match probe.best_success {
            Some(a) => Some(a.input_tokens),
            None => None,
        },
        s.first_failure_tokens == opt_tokens(probe.first_failure),
        s.first_failure_http_status == match probe.first_failure {
            Some(a) => a.http_status,
            None => None,
        },
        s.first_failure_error_kind == match probe.first_failure {
            Some(a) => a.error_kind,
            None => None,
        },
        s.categories@.len() == if probe.capabilities is Some {
            5nat
        } else {
            1nat
        },
        s.categories@[0].name@ == "Context Capacity"@,
        s.categories@[0].passed == if probe.best_success is Some {
            1usize
        } else {
            0usize
        },
        probe.capabilities matches Some(c) ==> {
            &&& s.categories@[1].name@ == "Retrieval"@
            &&& s.categories@[1].total as nat == suite_sums(c.summary.suites@, retrieval_suites()).1
            &&& s.categories@[1].passed as nat == suite_sums(c.summary.suites@, retrieval_suites()).0
            &&& s.categories@[2].name@ == "Reasoning and Conflict"@
            &&& s.categories@[2].total as nat == suite_sums(c.summary.suites@, reasoning_suites()).1
            &&& s.categories@[2].passed as nat == suite_sums(c.summary.suites@, reasoning_suites()).0
            &&& s.categories@[3].name@ == "Hallucination Resistance"@
            &&& s.categories@[3].total as nat == suite_sums(c.summary.suites@, hallucination_suites()).1
            &&& s.categories@[3].passed as nat == suite_sums(c.summary.suites@, hallucination_suites()).0
            &&& s.categories@[4].name@ == "Latency"@
            &&& s.categories@[4].detail@ == "avg "@ + dec(c.summary.avg_latency_ms as nat) + " ms"@
        },
        s.categories@.map_values(|c: ScoreCategory| category_view(c)) == score_categories_spec(max_tokens, probe),
        s.artifacts.score_json@.len() == 0,
        s.artifacts.score_html@.len() == 0,
        s.artifacts.probe_summary_json@ == probe_summary_json@,
        opt_view(s.artifacts.capability_report_html) == match probe.capabilities {
            Some(c) => Some(c.report_path@),
            None => None,
        },
{
    let max_context_tokens = match &probe.best_success {
        Some(a) => Some(a.token_count),
        None => None,
    };
    let max_context_input_tokens = match &probe.best_success {
        Some(a) => Some(a.input_tokens),
        None => None,
    };
    let (first_failure_tokens, first_failure_http_status, first_failure_error_kind) = match &probe.first_failure {
        Some(a) => (Some(a.token_count), a.http_status, clone_opt(&a.error_kind)),
        None => (None, None, None),
    };
    let mut categories: Vec<ScoreCategory> = Vec::new();
    categories.push(context_category(max_context_tokens, max_tokens, probe.best_success.is_some()));
    let mut capability_report_html: Option<String> = None;
    if let Some(c) = &probe.capabilities {
        let retrieval: Vec<&str> = vec!["multi-needle", "position-sweep"];
        let reasoning: Vec<&str> = vec!["conflict", "multi-hop", "order-dependent"];
        let hallucination: Vec<&str> = vec!["hallucination"];
        proof {
            assert(retrieval@.map_values(|n: &str| n@) =~= retrieval_suites());
            assert(reasoning@.map_values(|n: &str| n@) =~= reasoning_suites());
            assert(hallucination@.map_values(|n: &str| n@) =~= hallucination_suites());
            lemma_sums_within_totals(c.summary.suites@, retrieval_suites());
            lemma_sums_within_totals(c.summary.suites@, reasoning_suites());
            lemma_sums_within_totals(c.summary.suites@, hallucination_suites());
        }
        categories.push(suite_category("Retrieval", 20, &c.summary.suites, &retrieval));
        categories.push(suite_category("Reasoning and Conflict", 20, &c.summary.suites, &reasoning));
        categories.push(suite_category("Hallucination Resistance", 20, &c.summary.suites, &hallucination));
        categories.push(latency_category(c.summary.avg_latency_ms));
        capability_report_html = Some(c.report_path.clone());
    }
    ScoreSummary {
        schema_version: 1,
        run_dir: string_of(chars_of(run_dir).as_slice()),
        profile,
        provider_model: probe.provider_model.clone(),
        provider_base_url: probe.provider_base_url.clone(),
        request_style: probe.request_style.clone(),
        score_fmt: String::new(),
        max_context_tokens,
        max_context_input_tokens,
        first_failure_tokens,
        first_failure_http_status,
        first_failure_error_kind,
        categories,
        artifacts: ScoreArtifacts {
            score_json: String::new(),
            score_html: String::new(),
            probe_summary_json: string_of(chars_of(probe_summary_json).as_slice()),
            capability_report_html,
        },
        probe,
    }
}

/// `s` padded with spaces to `width` characters: on the right, or on the
/// left.
pub open spec fn spaces(n: nat) -> Seq<char> {
    Seq::new(n, |i: int| ' ')
}

pub open spec fn pad_right_spec(s: Seq<char>, width: nat) -> Seq<char> {
    if s.len() < width {
        s + spaces((width - s.len()) as nat)
    } else {
        s
    }
}

pub open spec fn pad_left_spec(s: Seq<char>, width: nat) -> Seq<char> {
    if s.len() < width {
        spaces((width - s.len()) as nat) + s
    } else {
        s
    }
}

fn push_spaces(r: &mut Vec<char>, n: usize)
    ensures
        final(r)@ == old(r)@ + spaces(n as nat),
{
    let ghost start = r@;
    let mut i: usize = 0;
    while i < n
        invariant
            i <= n,
            r@ == start + spaces(i as nat),
        decreases n - i,
    {
        r.push(' ');
        assert(start + spaces(i as nat + 1) =~= (start + spaces(i as nat)).push(' '));
        i = i + 1;
    }
}

fn push_padded_right(r: &mut Vec<char>, s: &str, width: usize)
    ensures
        final(r)@ == old(r)@ + pad_right_spec(s@, width as nat),
{
    let cs = chars_of(s);
    extend_chars(r, cs.as_slice());
    if cs.len() < width {
        push_spaces(r, width - cs.len());
    }
    assert(r@ =~= old(r)@ + pad_right_spec(s@, width as nat));
}

fn push_padded_left(r: &mut Vec<char>, s: &str, width: usize)
    ensures
        final(r)@ == old(r)@ + pad_left_spec(s@, width as nat),
{
    let cs = chars_of(s);
    if cs.len() < width {
        push_spaces(r, width - cs.len());
    }
    extend_chars(r, cs.as_slice());
    assert(r@ =~= old(r)@ + pad_left_spec(s@, width as nat));
}

pub open spec fn category_line(c: ScoreCategory) -> Seq<char> {
    "  "@ + pad_right_spec(c.name@, 26) + " "@ + pad_left_spec(c.score_fmt@, 6) + " / 100  "@
        + c.detail@ + " ("@ + dec(c.passed as nat) + "/"@ + dec(c.total as nat) + ")\n"@
}

pub open spec fn category_lines(s: Seq<ScoreCategory>) -> Seq<char>
    decreases s.len(),
{
    if s.len() == 0 {
        seq![]
    } else {
        category_lines(s.drop_last()) + category_line(s.last())
    }
}

pub open spec fn score_header(s: ScoreSummary) -> Seq<char> {
    "LongCtx Score: "@ + s.score_fmt@ + " / 100\n"@ + "Model: "@ + s.provider_model@ + " ("@
        + s.provider_base_url@ + ", "@ + s.request_style@ + ")\n"@ + "Profile: "@
        + profile_name_spec(s.profile) + "\n"@
}

pub open spec fn max_context_part(s: ScoreSummary) -> Seq<char> {
    match s.max_context_tokens {
        Some(t) => "Max context: "@ + dec(t as nat) + " tokens (input_tokens: "@ + dec(
            or_default(s.max_context_input_tokens, 0) as nat,
        ) + ")\n"@,
        None => "Max context: no passing context probe\n"@,
    }
}

pub open spec fn first_failure_part(s: ScoreSummary) -> Seq<char> {
    match s.first_failure_tokens {
        Some(t) => "First failure: "@ + dec(t as nat) + " tokens (status: "@ + display_opt_spec(
            s.first_failure_http_status,
        ) + ", error_kind: "@ + match opt_view(s.first_failure_error_kind) {
            Some(k) => k,
            None => seq![],
        } + ")\n"@,
        None => seq![],
    }
}

pub open spec fn score_footer(s: ScoreSummary) -> Seq<char> {
    "HTML report: "@ + s.artifacts.score_html@ + "\n"@ + "JSON report: "@
        + s.artifacts.score_json@ + "\n"@ + match opt_view(s.artifacts.capability_report_html) {
        Some(r) => "Capability report: "@ + r + "\n"@,
        None => seq![],
    }
}

pub open spec fn score_render_spec(s: ScoreSummary) -> Seq<char> {
    score_header(s) + max_context_part(s) + first_failure_part(s) + "Categories:\n"@
        + category_lines(s.categories@) + score_footer(s)
}

fn push_number(r: &mut Vec<char>, n: u64)
    ensures
        final(r)@ == old(r)@ + dec(n as nat),
{
    extend_chars(r, u64_to_chars(n).as_slice());
}

fn push_category_line(r: &mut Vec<char>, c: &ScoreCategory)
    ensures
        final(r)@ == old(r)@ + category_line(*c),
{
    let ghost start = r@;
    extend_str(r, "  ");
    push_padded_right(r, c.name.as_str(), 26);
    extend_str(r, " ");
    push_padded_left(r, c.score_fmt.as_str(), 6);
    extend_str(r, " / 100  ");
    extend_str(r, c.detail.as_str());
    extend_str(r, " (");
    push_number(r, c.passed as u64);
    extend_str(r, "/");
    push_number(r, c.total as u64);
    extend_str(r, ")\n");
    assert(r@ =~= start + category_line(*c));
}

fn push_score_header(r: &mut Vec<char>, s: &ScoreSummary)
    ensures
        final(r)@ == old(r)@ + score_header(*s),
{
    let ghost start = r@;
    extend_str(r, "LongCtx Score: ");
    extend_str(r, s.score_fmt.as_str());
    extend_str(r, " / 100\n");
    extend_str(r, "Model: ");
    extend_str(r, s.provider_model.as_str());
    extend_str(r, " (");
    extend_str(r, s.provider_base_url.as_str());
    extend_str(r, ", ");
    extend_str(r, s.request_style.as_str());
    extend_str(r, ")\n");
    extend_str(r, "Profile: ");
    extend_str(r, s.profile.as_str());
    extend_str(r, "\n");
    assert(r@ =~= start + score_header(*s));
}

fn push_max_context_part(r: &mut Vec<char>, s: &ScoreSummary)
    ensures
        final(r)@ == old(r)@ + max_context_part(*s),
{
    let ghost start = r@;
    match s.max_context_tokens {
        Some(t) => {
            extend_str(r, "Max context: ");
            push_number(r, t);
            extend_str(r, " tokens (input_tokens: ");
            push_number(r, match s.max_context_input_tokens {
                Some(v) => v,
                None => 0,
            });
            extend_str(r, ")\n");
        },
        None => {
            extend_str(r, "Max context: no passing context probe\n");
        },
    }
    assert(r@ =~= start + max_context_part(*s));
}

fn push_first_failure_part(r: &mut Vec<char>, s: &ScoreSummary)
    ensures
        final(r)@ == old(r)@ + first_failure_part(*s),
{
    let ghost start = r@;
    if let Some(t) = s.first_failure_tokens {
        extend_str(r, "First failure: ");
        push_number(r, t);
        extend_str(r, " tokens (status: ");
        extend_str(r, display_opt(s.first_failure_http_status).as_str());
        extend_str(r, ", error_kind: ");
        match &s.first_failure_error_kind {
            Some(k) => extend_str(r, k.as_str()),
            None => {},
        }
        extend_str(r, ")\n");
    }
    assert(r@ =~= start + first_failure_part(*s));
}

fn push_score_footer(r: &mut Vec<char>, s: &ScoreSummary)
    ensures
        final(r)@ == old(r)@ + score_footer(*s),
{
    let ghost start = r@;
    extend_str(r, "HTML report: ");
    extend_str(r, s.artifacts.score_html.as_str());
    extend_str(r, "\n");
    extend_str(r, "JSON report: ");
    extend_str(r, s.artifacts.score_json.as_str());
    extend_str(r, "\n");
    if let Some(rep) = &s.artifacts.capability_report_html {
        extend_str(r, "Capability report: ");
        extend_str(r, rep.as_str());
        extend_str(r, "\n");
    }
    assert(r@ =~= start + score_footer(*s));
}

impl ScoreSummary {
    /// The plain-text score card.
    pub fn render(&self) -> (out: String)
        ensures
            out@ == score_render_spec(*self),
    {
        let mut r: Vec<char> = Vec::new();
        push_score_header(&mut r, self);
        push_max_context_part(&mut r, self);
        push_first_failure_part(&mut r, self);
        extend_str(&mut r, "Categories:\n");
        let ghost before_lines = r@;
        let mut i: usize = 0;
        while i < self.categories.len()
            invariant
                i <= self.categories@.len(),
                r@ == before_lines + category_lines(self.categories@.take(i as int)),
            decreases self.categories@.len() - i,
        {
            proof {
                assert(self.categories@.take(i as int + 1).drop_last() =~= self.categories@.take(
                    i as int,
                ));
                assert(self.categories@.take(i as int + 1).last() == self.categories@[i as int]);
            }
            push_category_line(&mut r, &self.categories[i]);
            proof {
                assert(r@ =~= before_lines + category_lines(self.categories@.take(i as int + 1)));
            }
            i = i + 1;
        }
        assert(self.categories@.take(self.categories@.len() as int) =~= self.categories@);
        push_score_footer(&mut r, self);
        assert(r@ =~= score_render_spec(*self));
        string_of(r.as_slice())
    }
}

// ---------------------------------------------------------------------------
// The score page
// ---------------------------------------------------------------------------

pub open spec fn score_category_row(c: ScoreCategory) -> Seq<char> {
    "<tr><td>"@ + html_escape(c.name@) + "</td><td>"@ + html_escape(c.score_fmt@) + "</td><td>"@
        + html_escape(c.detail@) + "</td><td>"@ + dec(c.passed as nat) + "</td><td>"@ + dec(
        c.total as nat,
    ) + "</td></tr>\n"@
}

pub open spec fn score_category_rows(cs: Seq<ScoreCategory>) -> Seq<char>
    decreases cs.len(),
{
    if cs.len() == 0 {
        seq![]
    } else {
        score_category_rows(cs.drop_last()) + score_category_row(cs.last())
    }
}

/// The score page: the score, the model, the profile, the context reached
/// and the first failure, then one row per category.
pub open spec fn score_page_spec(s: ScoreSummary) -> Seq<char> {
    "<!DOCTYPE html>\n<html lang=\"en\">\n<head>\n<meta charset=\"utf-8\">\n<title>LongCtx Score</title>\n</head>\n<body>\n<h1>LongCtx Score: "@
        + html_escape(s.score_fmt@) + " / 100</h1>\n<p>Model: "@ + html_escape(s.provider_model@)
        + " ("@ + html_escape(s.provider_base_url@) + ", "@ + html_escape(s.request_style@)
        + ")</p>\n<p>Profile: "@ + profile_name_spec(s.profile) + "</p>\n<p>Max context: "@
        + display_tokens_spec(s.max_context_tokens) + "</p>\n<p>First failure: "@
        + display_tokens_spec(s.first_failure_tokens)
        + "</p>\n<table>\n<thead><tr><th>Category</th><th>Score</th><th>Detail</th><th>Passed</th><th>Total</th></tr></thead>\n<tbody>\n"@
        + score_category_rows(s.categories@) + "</tbody>\n</table>\n</body>\n</html>\n"@
}

fn push_score_category_row(r: &mut Vec<char>, c: &ScoreCategory)
    ensures
        final(r)@ == old(r)@ + score_category_row(*c),
{
    extend_str(r, "<tr><td>");
    push_escaped(r, c.name.as_str());
    extend_str(r, "</td><td>");
    push_escaped(r, c.score_fmt.as_str());
    extend_str(r, "</td><td>");
    push_escaped(r, c.detail.as_str());
    extend_str(r, "</td><td>");
    extend_chars(r, u64_to_chars(c.passed as u64).as_slice());
    extend_str(r, "</td><td>");
    extend_chars(r, u64_to_chars(c.total as u64).as_slice());
    extend_str(r, "</td></tr>\n");
    assert(final(r)@ =~= old(r)@ + score_category_row(*c));
}

impl ScoreSummary {
    /// The standalone HTML score page.
    pub fn page(&self) -> (html: String)
        ensures
            html@ == score_page_spec(*self),
    {
        let mut r: Vec<char> = Vec::new();
        extend_str(
            &mut r,
            "<!DOCTYPE html>\n<html lang=\"en\">\n<head>\n<meta charset=\"utf-8\">\n<title>LongCtx Score</title>\n</head>\n<body>\n<h1>LongCtx Score: ",
        );
        push_escaped(&mut r, self.score_fmt.as_str());
        extend_str(&mut r, " / 100</h1>\n<p>Model: ");
        push_escaped(&mut r, self.provider_model.as_str());
        extend_str(&mut r, " (");
        push_escaped(&mut r, self.provider_base_url.as_str());
        extend_str(&mut r, ", ");
        push_escaped(&mut r, self.request_style.as_str());
        extend_str(&mut r, ")</p>\n<p>Profile: ");
        extend_str(&mut r, self.profile.as_str());
        extend_str(&mut r, "</p>\n<p>Max context: ");
        extend_str(&mut r, display_tokens(self.max_context_tokens).as_str());
        extend_str(&mut r, "</p>\n<p>First failure: ");
        extend_str(&mut r, display_tokens(self.first_failure_tokens).as_str());
        extend_str(
            &mut r,
            "</p>\n<table>\n<thead><tr><th>Category</th><th>Score</th><th>Detail</th><th>Passed</th><th>Total</th></tr></thead>\n<tbody>\n",
        );
        let ghost head = r@;
        let mut i: usize = 0;
        while i < self.categories.len()
            invariant
                i <= self.categories@.len(),
                r@ == head + score_category_rows(self.categories@.take(i as int)),
            decreases self.categories@.len() - i,
        {
            push_score_category_row(&mut r, &self.categories[i]);
            proof {
                assert(self.categories@.take(i as int + 1).drop_last() =~= self.categories@.take(i as int));
                assert(self.categories@.take(i as int + 1).last() == self.categories@[i as int]);
            }
            i = i + 1;
        }
        assert(self.categories@.take(self.categories@.len() as int) =~= self.categories@);
        extend_str(&mut r, "</tbody>\n</table>\n</body>\n</html>\n");
        assert(r@ =~= score_page_spec(*self));
        string_of(r.as_slice())
    }
}

} // verus!
