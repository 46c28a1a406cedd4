use vstd::prelude::*;

use crate::benchmark::{meta_get, meta_lookup, BenchmarkResult, ErrorKind, SCHEMA_VERSION};
use crate::context_index::opt_view;
use crate::text::{
    chars_of, dec, extend_chars, extend_str, join_seq, lemma_lex_irreflexive, lemma_lex_total, lemma_lex_transitive,
    lex_less, lex_lt, slices_equal_chars, string_of, strictly_sorted, strings_view, u64_to_chars,
};

verus! {

pub struct FailureGroupSummary {
    pub label: String,
    pub count: usize,
}

/// Totals of one group of results sharing a label.
pub struct GroupCounts {
    pub label: String,
    pub total: usize,
    pub passed: usize,
    pub latency_sum: u64,
}

/// The integer part of a report summary; pass rates are derived from these
/// counts where the report is rendered.
pub struct ReportCounts {
    pub total: usize,
    pub passed: usize,
    pub avg_latency_ms: u64,
    pub suites: Vec<GroupCounts>,
    pub token_counts: Vec<GroupCounts>,
    pub positions: Vec<GroupCounts>,
    pub failure_groups: Vec<FailureGroupSummary>,
}

// ---------------------------------------------------------------------------
// Failure groups and judge details
// ---------------------------------------------------------------------------

pub open spec fn failure_group_spec(r: BenchmarkResult) -> Seq<char> {
    match r.error_kind {
        Some(kind) => kind.name_spec(),
        None => if r.passed {
            "Pass"@
        } else {
            "Grading"@
        },
    }
}

/// A result's failure group: its error kind, or Pass / Grading.
pub fn failure_group(result: &BenchmarkResult) -> (s: String)
    ensures
        s@ == failure_group_spec(*result),
{
    match result.error_kind {
        Some(kind) => kind.name(),
        None => if result.passed {
            String::from_str("Pass")
        } else {
            String::from_str("Grading")
        },
    }
}

pub open spec fn opt_part(o: Option<u64>, prefix: Seq<char>, suffix: Seq<char>) -> Seq<Seq<char>> {
    match o {
        Some(v) => seq![prefix + dec(v as nat) + suffix],
        None => seq![],
    }
}

pub open spec fn judge_parts(r: BenchmarkResult) -> Seq<Seq<char>> {
    opt_part(
        match r.judge_http_status {
            Some(s) => Some(s as u64),
            None => None,
        },
        "HTTP "@,
        ""@,
    ) + opt_part(
        match r.judge_attempts {
            Some(a) => Some(a as u64),
            None => None,
        },
        ""@,
        " attempt(s)"@,
    ) + opt_part(r.judge_latency_ms, ""@, " ms"@) + opt_part(r.judge_input_tokens, ""@, " in"@)
        + opt_part(r.judge_output_tokens, ""@, " out"@) + match opt_view(r.judge_error) {
        Some(e) => seq![e],
        None => seq![],
    }
}

pub open spec fn judge_display_spec(r: BenchmarkResult) -> Seq<char> {
    if r.judge_latency_ms is None && r.judge_http_status is None && r.judge_error is None {
        seq![]
    } else {
        join_seq(judge_parts(r), " / "@)
    }
}

fn push_opt_part(parts: &mut Vec<String>, o: Option<u64>, prefix: &str, suffix: &str)
    ensures
        strings_view(final(parts)@) == strings_view(old(parts)@) + opt_part(o, prefix@, suffix@),
{
    if let Some(v) = o {
        let mut p: Vec<char> = Vec::new();
        extend_str(&mut p, prefix);
        extend_chars(&mut p, u64_to_chars(v).as_slice());
        extend_str(&mut p, suffix);
        let ghost before = strings_view(parts@);
        parts.push(string_of(p.as_slice()));
        assert(strings_view(parts@) =~= before + opt_part(o, prefix@, suffix@));
    } else {
        assert(strings_view(parts@) =~= strings_view(parts@) + opt_part(o, prefix@, suffix@));
    }
}

/// The judge audit column: HTTP status, attempts, latency, tokens and error.
pub fn render_judge_display(result: &BenchmarkResult) -> (s: String)
    ensures
        s@ == judge_display_spec(*result),
{
    if result.judge_latency_ms.is_none() && result.judge_http_status.is_none()
        && result.judge_error.is_none() {
        return String::new();
    }
    let mut parts: Vec<String> = Vec::new();
    let status: Option<u64> = match result.judge_http_status {
        Some(s) => Some(s as u64),
        None => None,
    };
    push_opt_part(&mut parts, status, "HTTP ", "");
    let attempts: Option<u64> = match result.judge_attempts {
        Some(a) => Some(a as u64),
        None => None,
    };
    push_opt_part(&mut parts, attempts, "", " attempt(s)");
    push_opt_part(&mut parts, result.judge_latency_ms, "", " ms");
    push_opt_part(&mut parts, result.judge_input_tokens, "", " in");
    push_opt_part(&mut parts, result.judge_output_tokens, "", " out");
    let ghost before = strings_view(parts@);
    if let Some(e) = &result.judge_error {
        parts.push(e.clone());
        assert(strings_view(parts@) =~= before + seq![e@]);
    }
    assert(strings_view(parts@) =~= judge_parts(*result));
    string_of(crate::text::join_strings(&parts, " / ").as_slice())
}

// ---------------------------------------------------------------------------
// Grouping results by label
// ---------------------------------------------------------------------------

/// How many of `labels` equal `x`, how many of those passed, and their
/// summed latency.
pub open spec fn label_count(labels: Seq<Seq<char>>, x: Seq<char>) -> nat
    decreases labels.len(),
{
    if labels.len() == 0 {
        0
    } else {
        label_count(labels.drop_last(), x) + if labels.last() == x {
            1nat
        } else {
            0nat
        }
    }
}

pub open spec fn label_passed(labels: Seq<Seq<char>>, passed: Seq<bool>, x: Seq<char>) -> nat
    decreases labels.len(),
{
    if labels.len() == 0 {
        0
    } else {
        label_passed(labels.drop_last(), passed, x) + if labels.last() == x && passed[labels.len()
            - 1] {
            1nat
        } else {
            0nat
        }
    }
}

pub open spec fn label_latency(labels: Seq<Seq<char>>, latency: Seq<u64>, x: Seq<char>) -> nat
    decreases labels.len(),
{
    if labels.len() == 0 {
        0
    } else {
        label_latency(labels.drop_last(), latency, x) + if labels.last() == x {
            latency[labels.len() - 1] as nat
        } else {
            0nat
        }
    }
}

pub open spec fn seq_sum(s: Seq<u64>) -> nat
    decreases s.len(),
{
    if s.len() == 0 {
        0
    } else {
        seq_sum(s.drop_last()) + s.last() as nat
    }
}

pub open spec fn group_labels(g: Seq<GroupCounts>) -> Seq<Seq<char>> {
    g.map_values(|c: GroupCounts| c.label@)
}

/// The groups of a labelled sequence: one per distinct label, in label order,
/// with its count, passes and summed latency.
pub open spec fn groups_spec(
    g: Seq<GroupCounts>,
    labels: Seq<Seq<char>>,
    passed: Seq<bool>,
    latency: Seq<u64>,
) -> bool {
    &&& strictly_sorted(group_labels(g))
    &&& forall|x: Seq<char>| group_labels(g).contains(x) <==> labels.contains(x)
    &&& forall|k: int|
        0 <= k < g.len() ==> {
            &&& (#[trigger] g[k]).total as nat == label_count(labels, g[k].label@)
            &&& g[k].passed as nat == label_passed(labels, passed, g[k].label@)
            &&& g[k].latency_sum as nat == label_latency(labels, latency, g[k].label@)
        }
}

proof fn lemma_label_bounds(
    labels: Seq<Seq<char>>,
    passed: Seq<bool>,
    latency: Seq<u64>,
    x: Seq<char>,
)
    requires
        labels.len() == latency.len(),
        labels.len() == passed.len(),
    ensures
        label_passed(labels, passed, x) <= label_count(labels, x) <= labels.len(),
        label_latency(labels, latency, x) <= seq_sum(latency),
        label_count(labels, x) == 0 <==> !labels.contains(x),
        !labels.contains(x) ==> label_latency(labels, latency, x) == 0,
    decreases labels.len(),
{
    if labels.len() > 0 {
        lemma_label_bounds(labels.drop_last(), passed.drop_last(), latency.drop_last(), x);
        assert(latency.drop_last().len() == labels.drop_last().len());
        lemma_passed_prefix(labels, passed, x);
        lemma_latency_prefix(labels, latency, x);
        assert(seq_sum(latency) == seq_sum(latency.drop_last()) + latency.last());
        if labels.drop_last().contains(x) {
            let k = choose|k: int| 0 <= k < labels.drop_last().len() && labels.drop_last()[k] == x;
            assert(labels[k] == x);
        }
        if labels.contains(x) && labels.last() != x {
            let k = choose|k: int| 0 <= k < labels.len() && labels[k] == x;
            assert(labels.drop_last()[k] == x);
        }
    }
}

proof fn lemma_passed_prefix(labels: Seq<Seq<char>>, passed: Seq<bool>, x: Seq<char>)
    requires
        labels.len() > 0,
        labels.len() == passed.len(),
    ensures
        label_passed(labels, passed, x) == label_passed(labels.drop_last(), passed.drop_last(), x)
            + if labels.last() == x && passed.last() {
            1nat
        } else {
            0nat
        },
{
    lemma_passed_same(labels.drop_last(), passed, passed.drop_last(), x);
}

proof fn lemma_passed_same(labels: Seq<Seq<char>>, p1: Seq<bool>, p2: Seq<bool>, x: Seq<char>)
    requires
        labels.len() <= p1.len(),
        labels.len() <= p2.len(),
        forall|k: int| 0 <= k < labels.len() ==> p1[k] == p2[k],
    ensures
        label_passed(labels, p1, x) == label_passed(labels, p2, x),
    decreases labels.len(),
{
    if labels.len() > 0 {
        lemma_passed_same(labels.drop_last(), p1, p2, x);
    }
}

proof fn lemma_latency_prefix(labels: Seq<Seq<char>>, latency: Seq<u64>, x: Seq<char>)
    requires
        labels.len() > 0,
        labels.len() == latency.len(),
    ensures
        label_latency(labels, latency, x) == label_latency(
            labels.drop_last(),
            latency.drop_last(),
            x,
        ) + if labels.last() == x {
            latency.last() as nat
        } else {
            0nat
        },
{
    lemma_latency_same(labels.drop_last(), latency, latency.drop_last(), x);
}

proof fn lemma_latency_same(labels: Seq<Seq<char>>, l1: Seq<u64>, l2: Seq<u64>, x: Seq<char>)
    requires
        labels.len() <= l1.len(),
        labels.len() <= l2.len(),
        forall|k: int| 0 <= k < labels.len() ==> l1[k] == l2[k],
    ensures
        label_latency(labels, l1, x) == label_latency(labels, l2, x),
    decreases labels.len(),
{
    if labels.len() > 0 {
        lemma_latency_same(labels.drop_last(), l1, l2, x);
    }
}

fn find_group(groups: &Vec<GroupCounts>, x: &Vec<char>) -> (p: usize)
    ensures
        p <= groups@.len(),
        forall|k: int| 0 <= k < p ==> lex_lt(#[trigger] groups@[k].label@, x@),
        p < groups@.len() ==> !lex_lt(groups@[p as int].label@, x@),
{
    let mut p: usize = 0;
    while p < groups.len()
        invariant
            p <= groups@.len(),
            forall|k: int| 0 <= k < p ==> lex_lt(#[trigger] groups@[k].label@, x@),
        decreases groups@.len() - p,
    {
        let lc = chars_of(groups[p].label.as_str());
        if !lex_less(lc.as_slice(), x.as_slice()) {
            return p;
        }
        p = p + 1;
    }
    p
}

proof fn lemma_step_counts(
    li: Seq<Seq<char>>,
    pi: Seq<bool>,
    ti: Seq<u64>,
    x: Seq<char>,
    b: bool,
    t: u64,
    y: Seq<char>,
)
    requires
        li.len() == pi.len(),
        li.len() == ti.len(),
    ensures
        label_count(li.push(x), y) == label_count(li, y) + (if y == x { 1nat } else { 0nat }),
        label_passed(li.push(x), pi.push(b), y) == label_passed(li, pi, y) + (if y == x && b {
            1nat
        } else {
            0nat
        }),
        label_latency(li.push(x), ti.push(t), y) == label_latency(li, ti, y) + (if y == x {
            t as nat
        } else {
            0nat
        }),
        li.push(x).contains(y) <==> (li.contains(y) || y == x),
{
    let ln = li.push(x);
    assert(ln.drop_last() =~= li);
    lemma_passed_same(li, pi.push(b), pi, y);
    lemma_latency_same(li, ti.push(t), ti, y);
    if ln.contains(y) {
        let k = choose|k: int| 0 <= k < ln.len() && ln[k] == y;
        if k < li.len() {
            assert(li[k] == y);
        }
    }
    if li.contains(y) {
        let k = choose|k: int| 0 <= k < li.len() && li[k] == y;
        assert(ln[k] == y);
    }
    if y == x {
        assert(ln[li.len() as int] == y);
    }
}

/// One more result whose label already has a group: that group grows.
proof fn lemma_group_hit(
    old: Seq<GroupCounts>,
    new: Seq<GroupCounts>,
    p: int,
    li: Seq<Seq<char>>,
    pi: Seq<bool>,
    ti: Seq<u64>,
    x: Seq<char>,
    b: bool,
    t: u64,
)
    requires
        groups_spec(old, li, pi, ti),
        li.len() == pi.len(),
        li.len() == ti.len(),
        0 <= p < old.len(),
        old[p].label@ == x,
        new.len() == old.len(),
        forall|k: int| 0 <= k < new.len() && k != p ==> new[k] == old[k],
        new[p].label@ == x,
        new[p].total as nat == old[p].total + 1,
        new[p].passed as nat == old[p].passed + (if b { 1nat } else { 0nat }),
        new[p].latency_sum as nat == old[p].latency_sum + t,
    ensures
        groups_spec(new, li.push(x), pi.push(b), ti.push(t)),
{
    let gl = group_labels(old);
    assert(group_labels(new) =~= gl) by {
        assert forall|k: int| 0 <= k < gl.len() implies group_labels(new)[k] == gl[k] by {
            if k != p {
                assert(new[k] == old[k]);
            }
        }
    }
    assert forall|y: Seq<char>|
        group_labels(new).contains(y) <==> li.push(x).contains(y) by {
        lemma_step_counts(li, pi, ti, x, b, t, y);
        if y == x {
            assert(gl[p] == x);
        }
    }
    assert forall|k: int| 0 <= k < new.len() implies {
        &&& (#[trigger] new[k]).total as nat == label_count(li.push(x), new[k].label@)
        &&& new[k].passed as nat == label_passed(li.push(x), pi.push(b), new[k].label@)
        &&& new[k].latency_sum as nat == label_latency(li.push(x), ti.push(t), new[k].label@)
    } by {
        lemma_step_counts(li, pi, ti, x, b, t, new[k].label@);
        if k != p {
            assert(new[k] == old[k]);
            assert(gl[k] != gl[p]) by {
                if k < p {
                    assert(lex_lt(gl[k], gl[p]));
                } else {
                    assert(lex_lt(gl[p], gl[k]));
                }
                crate::text::lemma_lex_irreflexive(gl[k]);
            }
        } else {
            assert(old[p] == old[k]);
        }
    }
}

/// One more result with a label not seen before: a new group is inserted at
/// the position that keeps the labels sorted.
proof fn lemma_group_insert(
    old: Seq<GroupCounts>,
    new: Seq<GroupCounts>,
    p: int,
    li: Seq<Seq<char>>,
    pi: Seq<bool>,
    ti: Seq<u64>,
    x: Seq<char>,
    b: bool,
    t: u64,
)
    requires
        groups_spec(old, li, pi, ti),
        li.len() == pi.len(),
        li.len() == ti.len(),
        0 <= p <= old.len(),
        forall|k: int| 0 <= k < p ==> lex_lt(#[trigger] old[k].label@, x),
        p < old.len() ==> lex_lt(x, old[p].label@),
        new.len() == old.len() + 1,
        forall|k: int| 0 <= k < p ==> new[k] == old[k],
        forall|k: int| p < k < new.len() ==> new[k] == old[k - 1],
        new[p].label@ == x,
        new[p].total == 1,
        new[p].passed as nat == (if b { 1nat } else { 0nat }),
        new[p].latency_sum == t,
    ensures
        groups_spec(new, li.push(x), pi.push(b), ti.push(t)),
{
    let gl = group_labels(old);
    let ng = group_labels(new);
    assert(ng =~= gl.insert(p, x)) by {
        assert forall|k: int| 0 <= k < ng.len() implies ng[k] == gl.insert(p, x)[k] by {
            if k < p {
                assert(new[k] == old[k]);
            } else if k > p {
                assert(new[k] == old[k - 1]);
            }
        }
    }
    assert(!gl.contains(x)) by {
        if gl.contains(x) {
            let k = choose|k: int| 0 <= k < gl.len() && gl[k] == x;
            if k < p {
                assert(lex_lt(old[k].label@, x));
                crate::text::lemma_lex_irreflexive(x);
            } else if k > p {
                assert(lex_lt(gl[p], gl[k]));
                lemma_lex_transitive(x, gl[p], gl[k]);
                crate::text::lemma_lex_irreflexive(x);
            } else {
                crate::text::lemma_lex_irreflexive(x);
            }
        }
    }
    assert(!li.contains(x));
    lemma_label_bounds(li, pi, ti, x);
    assert forall|a: int, c: int| 0 <= a < c < ng.len() implies lex_lt(
        #[trigger] ng[a],
        #[trigger] ng[c],
    ) by {
        if c == p {
            assert(lex_lt(old[a].label@, x));
        } else if a == p {
            if c - 1 > p {
                assert(lex_lt(gl[p], gl[c - 1]));
                lemma_lex_transitive(x, gl[p], gl[c - 1]);
            }
        } else if a < p && c > p {
            assert(lex_lt(gl[a], gl[c - 1]));
        } else if a > p {
            assert(lex_lt(gl[a - 1], gl[c - 1]));
        }
    }
    assert forall|y: Seq<char>| ng.contains(y) <==> li.push(x).contains(y) by {
        lemma_step_counts(li, pi, ti, x, b, t, y);
        if ng.contains(y) {
            let k = choose|k: int| 0 <= k < ng.len() && ng[k] == y;
            if k < p {
                assert(gl[k] == y);
            } else if k > p {
                assert(gl[k - 1] == y);
            }
        }
        if gl.contains(y) {
            let k = choose|k: int| 0 <= k < gl.len() && gl[k] == y;
            if k < p {
                assert(ng[k] == y);
            } else {
                assert(ng[k + 1] == y);
            }
        }
        if y == x {
            assert(ng[p] == y);
        }
    }
    assert forall|k: int| 0 <= k < new.len() implies {
        &&& (#[trigger] new[k]).total as nat == label_count(li.push(x), new[k].label@)
        &&& new[k].passed as nat == label_passed(li.push(x), pi.push(b), new[k].label@)
        &&& new[k].latency_sum as nat == label_latency(li.push(x), ti.push(t), new[k].label@)
    } by {
        lemma_step_counts(li, pi, ti, x, b, t, new[k].label@);
        if k < p {
            assert(new[k] == old[k]);
            assert(gl[k] != x);
        } else if k > p {
            assert(new[k] == old[k - 1]);
            assert(gl.contains(gl[k - 1]));
            assert(gl[k - 1] != x);
        }
    }
}

/// Groups a labelled sequence of results.
pub fn group_counts(labels: &Vec<String>, passed: &Vec<bool>, latency: &Vec<u64>) -> (g: Vec<
    GroupCounts,
>)
    requires
        labels@.len() == passed@.len(),
        labels@.len() == latency@.len(),
        seq_sum(latency@) <= u64::MAX,
    ensures
        groups_spec(g@, strings_view(labels@), passed@, latency@),
{
    let ghost lv = strings_view(labels@);
    let mut groups: Vec<GroupCounts> = Vec::new();
    let mut i: usize = 0;
    while i < labels.len()
        invariant
            i <= labels@.len(),
            lv == strings_view(labels@),
            labels@.len() == passed@.len(),
            labels@.len() == latency@.len(),
            seq_sum(latency@) <= u64::MAX,
            groups_spec(
                groups@,
                lv.take(i as int),
                passed@.take(i as int),
                latency@.take(i as int),
            ),
        decreases labels@.len() - i,
    {
        let ghost li = lv.take(i as int);
        let ghost pi = passed@.take(i as int);
        let ghost ti = latency@.take(i as int);
        let x = chars_of(labels[i].as_str());
        proof {
            assert(lv.take(i as int + 1) =~= li.push(x@));
            assert(passed@.take(i as int + 1) =~= pi.push(passed@[i as int]));
            assert(latency@.take(i as int + 1) =~= ti.push(latency@[i as int]));
            lemma_sum_prefix(latency@, i as int + 1);
            lemma_label_bounds(li.push(x@), pi.push(passed@[i as int]), ti.push(latency@[i as int]), x@);
        }
        let p = find_group(&groups, &x);
        let ghost old_groups = groups@;
        let mut found = false;
        if p < groups.len() {
            let lc = chars_of(groups[p].label.as_str());
            found = slices_equal_chars(lc.as_slice(), x.as_slice());
        }
        if found {
            proof {
                lemma_step_counts(li, pi, ti, x@, passed@[i as int], latency@[i as int], x@);
                lemma_label_bounds(li, pi, ti, x@);
                assert(group_labels(old_groups)[p as int] == x@);
            }
            let updated = GroupCounts {
                label: groups[p].label.clone(),
                total: groups[p].total + 1,
                passed: if passed[i] {
                    groups[p].passed + 1
                } else {
                    groups[p].passed
                },
                latency_sum: groups[p].latency_sum + latency[i],
            };
            groups.set(p, updated);
            proof {
                lemma_group_hit(old_groups, groups@, p as int, li, pi, ti, x@, passed@[i as int], latency@[i as int]);
            }
        } else {
            proof {
                if p < old_groups.len() {
                    lemma_lex_total(old_groups[p as int].label@, x@);
                }
            }
            let g = GroupCounts {
                label: labels[i].clone(),
                total: 1,
                passed: if passed[i] {
                    1
                } else {
                    0
                },
                latency_sum: latency[i],
            };
            groups.insert(p, g);
            proof {
                lemma_group_insert(old_groups, groups@, p as int, li, pi, ti, x@, passed@[i as int], latency@[i as int]);
            }
        }
        i = i + 1;
    }
    assert(lv.take(labels@.len() as int) =~= lv);
    assert(passed@.take(labels@.len() as int) =~= passed@);
    assert(latency@.take(labels@.len() as int) =~= latency@);
    groups
}

proof fn lemma_sum_prefix(s: Seq<u64>, n: int)
    requires
        0 <= n <= s.len(),
    ensures
        seq_sum(s.take(n)) <= seq_sum(s),
    decreases s.len() - n,
{
    if n < s.len() {
        lemma_sum_prefix(s, n + 1);
        assert(s.take(n + 1).drop_last() =~= s.take(n));
    } else {
        assert(s.take(n) =~= s);
    }
}


// ---------------------------------------------------------------------------
// The summary of a results file
// ---------------------------------------------------------------------------

pub open spec fn suite_label(r: BenchmarkResult) -> Seq<char> {
    match r.suite {
        Some(s) => s@,
        None => "unknown"@,
    }
}

pub open spec fn token_label(r: BenchmarkResult) -> Seq<char> {
    match r.token_count {
        Some(t) => dec(t as nat),
        None => "unknown"@,
    }
}

pub open spec fn position_label(r: BenchmarkResult) -> Seq<char> {
    match meta_lookup(r.metadata@, "position_label"@) {
        Some(v) => v,
        None => seq![],
    }
}

pub open spec fn passed_flags(rs: Seq<BenchmarkResult>) -> Seq<bool> {
    rs.map_values(|r: BenchmarkResult| r.passed)
}

pub open spec fn latencies(rs: Seq<BenchmarkResult>) -> Seq<u64> {
    rs.map_values(|r: BenchmarkResult| r.latency_ms)
}

pub open spec fn suite_labels(rs: Seq<BenchmarkResult>) -> Seq<Seq<char>> {
    rs.map_values(|r: BenchmarkResult| suite_label(r))
}

pub open spec fn token_labels(rs: Seq<BenchmarkResult>) -> Seq<Seq<char>> {
    rs.map_values(|r: BenchmarkResult| token_label(r))
}

pub open spec fn position_labels(rs: Seq<BenchmarkResult>) -> Seq<Seq<char>> {
    rs.map_values(|r: BenchmarkResult| position_label(r))
}

/// How many results passed.
pub open spec fn count_passed(rs: Seq<BenchmarkResult>) -> nat
    decreases rs.len(),
{
    if rs.len() == 0 {
        0
    } else {
        count_passed(rs.drop_last()) + if rs.last().passed {
            1nat
        } else {
            0nat
        }
    }
}

/// The failure group of every result that did not pass, in order.
pub open spec fn failed_labels(rs: Seq<BenchmarkResult>) -> Seq<Seq<char>>
    decreases rs.len(),
{
    if rs.len() == 0 {
        seq![]
    } else if rs.last().passed {
        failed_labels(rs.drop_last())
    } else {
        failed_labels(rs.drop_last()).push(failure_group_spec(rs.last()))
    }
}

/// Groups keyed by every label but the empty one.
pub open spec fn nonempty_groups_spec(
    g: Seq<GroupCounts>,
    labels: Seq<Seq<char>>,
    passed: Seq<bool>,
    latency: Seq<u64>,
) -> bool {
    &&& strictly_sorted(group_labels(g))
    &&& forall|x: Seq<char>| group_labels(g).contains(x) <==> (labels.contains(x) && x.len() > 0)
    &&& forall|k: int|
        0 <= k < g.len() ==> {
            &&& (#[trigger] g[k]).total as nat == label_count(labels, g[k].label@)
            &&& g[k].passed as nat == label_passed(labels, passed, g[k].label@)
            &&& g[k].latency_sum as nat == label_latency(labels, latency, g[k].label@)
        }
}

pub open spec fn failure_labels_of(g: Seq<FailureGroupSummary>) -> Seq<Seq<char>> {
    g.map_values(|f: FailureGroupSummary| f.label@)
}

/// One entry per failure group of the failed results, in label order, with
/// the number of failed results in it.
pub open spec fn failure_groups_spec(g: Seq<FailureGroupSummary>, rs: Seq<BenchmarkResult>) -> bool {
    &&& strictly_sorted(failure_labels_of(g))
    &&& forall|x: Seq<char>| failure_labels_of(g).contains(x) <==> failed_labels(rs).contains(x)
    &&& forall|k: int|
        0 <= k < g.len() ==> (#[trigger] g[k]).count as nat == label_count(
            failed_labels(rs),
            g[k].label@,
        )
}

proof fn lemma_drop_empty_group(
    g: Seq<GroupCounts>,
    labels: Seq<Seq<char>>,
    passed: Seq<bool>,
    latency: Seq<u64>,
)
    requires
        groups_spec(g, labels, passed, latency),
    ensures
        nonempty_groups_spec(
            if g.len() > 0 && g[0].label@.len() == 0 {
                g.drop_first()
            } else {
                g
            },
            labels,
            passed,
            latency,
        ),
{
    let gl = group_labels(g);
    let r = if g.len() > 0 && g[0].label@.len() == 0 {
        g.drop_first()
    } else {
        g
    };
    let rl = group_labels(r);
    let d: int = if g.len() > 0 && g[0].label@.len() == 0 {
        1
    } else {
        0
    };
    assert forall|k: int| 0 <= k < r.len() implies r[k] == g[k + d] by {}
    assert forall|k: int| 0 < k < g.len() implies gl[k].len() > 0 by {
        assert(lex_lt(gl[0], gl[k]));
    }
    assert forall|a: int, c: int| 0 <= a < c < rl.len() implies lex_lt(#[trigger] rl[a], #[trigger] rl[c]) by {
        assert(rl[a] == gl[a + d]);
        assert(rl[c] == gl[c + d]);
    }
    assert forall|x: Seq<char>| rl.contains(x) <==> (labels.contains(x) && x.len() > 0) by {
        if rl.contains(x) {
            let k = choose|k: int| 0 <= k < rl.len() && rl[k] == x;
            assert(gl[k + d] == x);
            assert(gl.contains(x));
            if d == 0 && k == 0 && x.len() == 0 {
                assert(g[0].label@.len() == 0);
            }
        }
        if labels.contains(x) && x.len() > 0 {
            assert(gl.contains(x));
            let k = choose|k: int| 0 <= k < gl.len() && gl[k] == x;
            assert(k - d >= 0);
            assert(rl[k - d] == x);
        }
    }
    assert forall|k: int| 0 <= k < r.len() implies {
        &&& (#[trigger] r[k]).total as nat == label_count(labels, r[k].label@)
        &&& r[k].passed as nat == label_passed(labels, passed, r[k].label@)
        &&& r[k].latency_sum as nat == label_latency(labels, latency, r[k].label@)
    } by {
        assert(r[k] == g[k + d]);
    }
}

/// Removes the group with the empty label, which sorts first when present.
fn drop_empty_group(g: Vec<GroupCounts>) -> (r: Vec<GroupCounts>)
    ensures
        r@ == if g@.len() > 0 && g@[0].label@.len() == 0 {
            g@.drop_first()
        } else {
            g@
        },
{
    let mut g = g;
    let ghost before = g@;
    if g.len() > 0 && g[0].label.as_str().is_empty() {
        g.remove(0);
        assert(g@ =~= before.drop_first());
    }
    g
}


/// The labels, flags and latencies of a sequence of results, in one pass.
struct Columns {
    suites: Vec<String>,
    tokens: Vec<String>,
    positions: Vec<String>,
    passed: Vec<bool>,
    latency: Vec<u64>,
    failed: Vec<String>,
    failed_flags: Vec<bool>,
    failed_latency: Vec<u64>,
    passed_count: usize,
    latency_sum: u64,
}

fn label_of_suite(r: &BenchmarkResult) -> (s: String)
    ensures
        s@ == suite_label(*r),
{
    match &r.suite {
        Some(v) => v.clone(),
        None => String::from_str("unknown"),
    }
}

fn label_of_tokens(r: &BenchmarkResult) -> (s: String)
    ensures
        s@ == token_label(*r),
{
    match r.token_count {
        Some(t) => string_of(u64_to_chars(t).as_slice()),
        None => String::from_str("unknown"),
    }
}

fn label_of_position(r: &BenchmarkResult) -> (s: String)
    ensures
        s@ == position_label(*r),
{
    match meta_get(&r.metadata, "position_label") {
        Some(v) => v,
        None => String::new(),
    }
}

proof fn lemma_zero_sum(s: Seq<u64>)
    requires
        forall|k: int| 0 <= k < s.len() ==> s[k] == 0,
    ensures
        seq_sum(s) == 0,
    decreases s.len(),
{
    if s.len() > 0 {
        lemma_zero_sum(s.drop_last());
    }
}

fn columns(results: &Vec<BenchmarkResult>) -> (c: Columns)
    requires
        seq_sum(latencies(results@)) <= u64::MAX,
    ensures
        strings_view(c.suites@) == suite_labels(results@),
        strings_view(c.tokens@) == token_labels(results@),
        strings_view(c.positions@) == position_labels(results@),
        c.passed@ == passed_flags(results@),
        c.latency@ == latencies(results@),
        strings_view(c.failed@) == failed_labels(results@),
        c.failed_flags@.len() == c.failed@.len(),
        c.failed_latency@.len() == c.failed@.len(),
        seq_sum(c.failed_latency@) == 0,
        c.passed_count as nat == count_passed(results@),
        c.latency_sum as nat == seq_sum(latencies(results@)),
        c.suites@.len() == results@.len(),
        c.tokens@.len() == results@.len(),
        c.positions@.len() == results@.len(),
{
    let ghost rs = results@;
    let mut c = Columns {
        suites: Vec::new(),
        tokens: Vec::new(),
        positions: Vec::new(),
        passed: Vec::new(),
        latency: Vec::new(),
        failed: Vec::new(),
        failed_flags: Vec::new(),
        failed_latency: Vec::new(),
        passed_count: 0,
        latency_sum: 0,
    };
    let mut i: usize = 0;
    while i < results.len()
        invariant
            i <= rs.len(),
            rs == results@,
            seq_sum(latencies(rs)) <= u64::MAX,
            strings_view(c.suites@) == suite_labels(rs.take(i as int)),
            strings_view(c.tokens@) == token_labels(rs.take(i as int)),
            strings_view(c.positions@) == position_labels(rs.take(i as int)),
            c.passed@ == passed_flags(rs.take(i as int)),
            c.latency@ == latencies(rs.take(i as int)),
            strings_view(c.failed@) == failed_labels(rs.take(i as int)),
            c.failed_flags@.len() == c.failed@.len(),
            c.failed_latency@.len() == c.failed@.len(),
            forall|k: int| 0 <= k < c.failed_latency@.len() ==> c.failed_latency@[k] == 0,
            c.passed_count as nat == count_passed(rs.take(i as int)),
            count_passed(rs.take(i as int)) <= i,
            c.latency_sum as nat == seq_sum(latencies(rs.take(i as int))),
        decreases rs.len() - i,
    {
        let r = &results[i];
        let ghost ri = rs.take(i as int);
        let ghost rn = rs.take(i as int + 1);
        proof {
            assert(rn.drop_last() =~= ri);
            assert(rn.last() == rs[i as int]);
            assert(latencies(rn) =~= latencies(ri).push(r.latency_ms));
            assert(latencies(rn).drop_last() =~= latencies(ri));
            assert(latencies(rs).take(i as int + 1) =~= latencies(rn));
            lemma_sum_prefix(latencies(rs), i as int + 1);
        }
        let ghost s0 = strings_view(c.suites@);
        let ghost t0 = strings_view(c.tokens@);
        let ghost p0 = strings_view(c.positions@);
        let ghost f0 = strings_view(c.failed@);
        c.suites.push(label_of_suite(r));
        c.tokens.push(label_of_tokens(r));
        c.positions.push(label_of_position(r));
        c.passed.push(r.passed);
        c.latency.push(r.latency_ms);
        c.latency_sum = c.latency_sum + r.latency_ms;
        if r.passed {
            c.passed_count = c.passed_count + 1;
        } else {
            c.failed.push(failure_group(r));
            c.failed_flags.push(false);
            c.failed_latency.push(0);
            assert(strings_view(c.failed@) =~= f0.push(failure_group_spec(*r)));
        }
        proof {
            assert(strings_view(c.suites@) =~= s0.push(suite_label(*r)));
            assert(suite_labels(rn) =~= suite_labels(ri).push(suite_label(*r)));
            assert(strings_view(c.tokens@) =~= t0.push(token_label(*r)));
            assert(token_labels(rn) =~= token_labels(ri).push(token_label(*r)));
            assert(strings_view(c.positions@) =~= p0.push(position_label(*r)));
            assert(position_labels(rn) =~= position_labels(ri).push(position_label(*r)));
            assert(passed_flags(rn) =~= passed_flags(ri).push(r.passed));
        }
        i = i + 1;
    }
    proof {
        assert(rs.take(rs.len() as int) =~= rs);
        lemma_zero_sum(c.failed_latency@);
        assert(strings_view(c.suites@).len() == c.suites@.len());
        assert(strings_view(c.tokens@).len() == c.tokens@.len());
        assert(strings_view(c.positions@).len() == c.positions@.len());
    }
    c
}

/// Converts groups of failed results to their summaries.
fn failure_summaries(g: &Vec<GroupCounts>) -> (f: Vec<FailureGroupSummary>)
    ensures
        f@.len() == g@.len(),
        forall|k: int|
            0 <= k < g@.len() ==> (#[trigger] f@[k]).label@ == g@[k].label@ && f@[k].count
                == g@[k].total,
{
    let mut f: Vec<FailureGroupSummary> = Vec::new();
    let mut i: usize = 0;
    while i < g.len()
        invariant
            i <= g@.len(),
            f@.len() == i,
            forall|k: int|
                0 <= k < i ==> (#[trigger] f@[k]).label@ == g@[k].label@ && f@[k].count
                    == g@[k].total,
        decreases g@.len() - i,
    {
        f.push(FailureGroupSummary { label: g[i].label.clone(), count: g[i].total });
        i = i + 1;
    }
    f
}

/// The integer summary of a results file: totals, the mean latency (rounded
/// down), the groups by suite, token count and position, and the failure
/// groups of the results that did not pass.
pub fn summary_counts(results: &Vec<BenchmarkResult>) -> (c: ReportCounts)
    requires
        seq_sum(latencies(results@)) <= u64::MAX,
    ensures
        c.total == results@.len(),
        c.passed as nat == count_passed(results@),
        c.avg_latency_ms as nat == if results@.len() == 0 {
            0
        } else {
            seq_sum(latencies(results@)) / (results@.len() as nat)
        },
        groups_spec(c.suites@, suite_labels(results@), passed_flags(results@), latencies(results@)),
        groups_spec(
            c.token_counts@,
            token_labels(results@),
            passed_flags(results@),
            latencies(results@),
        ),
        nonempty_groups_spec(
            c.positions@,
            position_labels(results@),
            passed_flags(results@),
            latencies(results@),
        ),
        failure_groups_spec(c.failure_groups@, results@),
{
    let cols = columns(results);
    let total = results.len();
    let avg: u64 = if total == 0 {
        0
    } else {
        cols.latency_sum / (total as u64)
    };
    let suites = group_counts(&cols.suites, &cols.passed, &cols.latency);
    let token_counts = group_counts(&cols.tokens, &cols.passed, &cols.latency);
    let all_positions = group_counts(&cols.positions, &cols.passed, &cols.latency);
    proof {
        lemma_drop_empty_group(
            all_positions@,
            position_labels(results@),
            passed_flags(results@),
            latencies(results@),
        );
    }
    let positions = drop_empty_group(all_positions);
    let failed = group_counts(&cols.failed, &cols.failed_flags, &cols.failed_latency);
    let failure_groups = failure_summaries(&failed);
    proof {
        let fl = failed_labels(results@);
        let gl = group_labels(failed@);
        assert(failure_labels_of(failure_groups@) =~= gl);
    }
    ReportCounts {
        total,
        passed: cols.passed_count,
        avg_latency_ms: avg,
        suites,
        token_counts,
        positions,
        failure_groups,
    }
}

// ---------------------------------------------------------------------------
// Groups partition the results
// ---------------------------------------------------------------------------

pub open spec fn totals_sum(g: Seq<GroupCounts>) -> nat
    decreases g.len(),
{
    if g.len() == 0 {
        0
    } else {
        totals_sum(g.drop_last()) + g.last().total as nat
    }
}

spec fn count_sum(xs: Seq<Seq<char>>, labels: Seq<Seq<char>>) -> nat
    decreases xs.len(),
{
    if xs.len() == 0 {
        0
    } else {
        count_sum(xs.drop_last(), labels) + label_count(labels, xs.last())
    }
}

spec fn no_repeats(xs: Seq<Seq<char>>) -> bool {
    forall|i: int, j: int| 0 <= i < j < xs.len() ==> xs[i] != xs[j]
}

proof fn lemma_count_sum_empty(xs: Seq<Seq<char>>, labels: Seq<Seq<char>>)
    requires
        labels.len() == 0,
    ensures
        count_sum(xs, labels) == 0,
    decreases xs.len(),
{
    if xs.len() > 0 {
        lemma_count_sum_empty(xs.drop_last(), labels);
    }
}

proof fn lemma_count_sum_step(xs: Seq<Seq<char>>, labels: Seq<Seq<char>>)
    requires
        labels.len() > 0,
    ensures
        count_sum(xs, labels) == count_sum(xs, labels.drop_last()) + label_count(xs, labels.last()),
    decreases xs.len(),
{
    if xs.len() > 0 {
        lemma_count_sum_step(xs.drop_last(), labels);
    }
}

proof fn lemma_single_occurrence(xs: Seq<Seq<char>>, a: Seq<char>)
    requires
        no_repeats(xs),
        xs.contains(a),
    ensures
        label_count(xs, a) == 1,
    decreases xs.len(),
{
    let p = xs.drop_last();
    assert(no_repeats(p)) by {
        assert forall|i: int, j: int| 0 <= i < j < p.len() implies p[i] != p[j] by {
            assert(p[i] == xs[i] && p[j] == xs[j]);
        }
    }
    if xs.last() == a {
        lemma_label_absent(p, a);
        assert forall|k: int| 0 <= k < p.len() implies p[k] != a by {
            assert(p[k] == xs[k]);
            assert(xs[k] != xs[xs.len() - 1]);
        }
    } else {
        let k = choose|k: int| 0 <= k < xs.len() && xs[k] == a;
        assert(p[k] == a);
        lemma_single_occurrence(p, a);
    }
}

proof fn lemma_label_absent(xs: Seq<Seq<char>>, a: Seq<char>)
    requires
        forall|k: int| 0 <= k < xs.len() ==> xs[k] != a,
    ensures
        label_count(xs, a) == 0,
    decreases xs.len(),
{
    if xs.len() > 0 {
        lemma_label_absent(xs.drop_last(), a);
    }
}

proof fn lemma_count_sum_covers(xs: Seq<Seq<char>>, labels: Seq<Seq<char>>)
    requires
        no_repeats(xs),
        forall|x: Seq<char>| labels.contains(x) ==> xs.contains(x),
    ensures
        count_sum(xs, labels) == labels.len(),
    decreases labels.len(),
{
    if labels.len() == 0 {
        lemma_count_sum_empty(xs, labels);
    } else {
        let p = labels.drop_last();
        assert forall|x: Seq<char>| p.contains(x) implies xs.contains(x) by {
            let k = choose|k: int| 0 <= k < p.len() && p[k] == x;
            assert(labels[k] == x);
        }
        lemma_count_sum_covers(xs, p);
        lemma_count_sum_step(xs, labels);
        assert(labels.contains(labels.last()));
        lemma_single_occurrence(xs, labels.last());
    }
}

proof fn lemma_totals_are_counts(g: Seq<GroupCounts>, labels: Seq<Seq<char>>)
    requires
        forall|k: int| 0 <= k < g.len() ==> (#[trigger] g[k]).total as nat == label_count(labels, g[k].label@),
    ensures
        totals_sum(g) == count_sum(group_labels(g), labels),
    decreases g.len(),
{
    if g.len() > 0 {
        let p = g.drop_last();
        assert forall|k: int| 0 <= k < p.len() implies (#[trigger] p[k]).total as nat == label_count(labels, p[k].label@) by {
            assert(p[k] == g[k]);
        }
        lemma_totals_are_counts(p, labels);
        assert(group_labels(g).drop_last() =~= group_labels(p));
    }
}

/// The groups of a labelled sequence partition it: every item falls in
/// exactly one group, so the group totals add up to the number of items
/// (for a report, to the number of results, per suite and per token count).
pub proof fn lemma_groups_partition(
    g: Seq<GroupCounts>,
    labels: Seq<Seq<char>>,
    passed: Seq<bool>,
    latency: Seq<u64>,
)
    requires
        groups_spec(g, labels, passed, latency),
    ensures
        totals_sum(g) == labels.len(),
{
    let gl = group_labels(g);
    assert(no_repeats(gl)) by {
        assert forall|i: int, j: int| 0 <= i < j < gl.len() implies gl[i] != gl[j] by {
            assert(lex_lt(gl[i], gl[j]));
            lemma_lex_irreflexive(gl[i]);
        }
    }
    lemma_totals_are_counts(g, labels);
    lemma_count_sum_covers(gl, labels);
}

// ---------------------------------------------------------------------------
// Reading result rows
// ---------------------------------------------------------------------------

pub open spec fn result_schema_error(result: BenchmarkResult, line: nat) -> Option<Seq<char>> {
    if result.schema_version > SCHEMA_VERSION {
        Some("results file schema_version "@ + dec(result.schema_version as nat) + " on line "@ + dec(line)
            + " is newer than supported schema_version "@ + dec(SCHEMA_VERSION as nat))
    } else {
        match result.routing {
            Some(d) => if d.schema_version > SCHEMA_VERSION {
                Some("routing schema_version "@ + dec(d.schema_version as nat) + " on line "@ + dec(line)
                    + " is newer than supported schema_version "@ + dec(SCHEMA_VERSION as nat))
            } else {
                None
            },
            None => None,
        }
    }
}

/// A result row read from line `line` of a results file is refused when it,
/// or the routing decision it holds, has a newer schema than this reader.
pub fn check_result_schema(result: &BenchmarkResult, line: u64) -> (r: Result<(), String>)
    ensures
        match result_schema_error(*result, line as nat) {
            Some(m) => r matches Err(e) && e@ == m,
            None => r is Ok,
        },
{
    if result.schema_version > SCHEMA_VERSION {
        let mut m: Vec<char> = Vec::new();
        extend_str(&mut m, "results file schema_version ");
        extend_chars(&mut m, u64_to_chars(result.schema_version as u64).as_slice());
        extend_str(&mut m, " on line ");
        extend_chars(&mut m, u64_to_chars(line).as_slice());
        extend_str(&mut m, " is newer than supported schema_version ");
        extend_chars(&mut m, u64_to_chars(SCHEMA_VERSION as u64).as_slice());
        return Err(string_of(m.as_slice()));
    }
    match &result.routing {
        Some(d) => {
            if d.schema_version > SCHEMA_VERSION {
                let mut m: Vec<char> = Vec::new();
                extend_str(&mut m, "routing schema_version ");
                extend_chars(&mut m, u64_to_chars(d.schema_version as u64).as_slice());
                extend_str(&mut m, " on line ");
                extend_chars(&mut m, u64_to_chars(line).as_slice());
                extend_str(&mut m, " is newer than supported schema_version ");
                extend_chars(&mut m, u64_to_chars(SCHEMA_VERSION as u64).as_slice());
                return Err(string_of(m.as_slice()));
            }
            Ok(())
        },
        None => Ok(()),
    }
}

/// A group's average latency in whole milliseconds; 0 for an empty group.
pub fn average_latency(g: &GroupCounts) -> (a: u64)
    ensures
        a as nat == if g.total == 0 {
            0
        } else {
            g.latency_sum as nat / g.total as nat
        },
{
    if g.total == 0 {
        0
    } else {
        g.latency_sum / (g.total as u64)
    }
}

pub open spec fn failure_counts_sum(g: Seq<FailureGroupSummary>) -> nat
    decreases g.len(),
{
    if g.len() == 0 {
        0
    } else {
        failure_counts_sum(g.drop_last()) + g.last().count as nat
    }
}

proof fn lemma_failure_counts_are_counts(g: Seq<FailureGroupSummary>, labels: Seq<Seq<char>>)
    requires
        forall|k: int| 0 <= k < g.len() ==> (#[trigger] g[k]).count as nat == label_count(labels, g[k].label@),
    ensures
        failure_counts_sum(g) == count_sum(failure_labels_of(g), labels),
    decreases g.len(),
{
    if g.len() > 0 {
        let p = g.drop_last();
        assert forall|k: int| 0 <= k < p.len() implies (#[trigger] p[k]).count as nat == label_count(labels, p[k].label@) by {
            assert(p[k] == g[k]);
        }
        lemma_failure_counts_are_counts(p, labels);
        assert(failure_labels_of(g).drop_last() =~= failure_labels_of(p));
    }
}

proof fn lemma_failed_and_passed(rs: Seq<BenchmarkResult>)
    ensures
        failed_labels(rs).len() + count_passed(rs) == rs.len(),
    decreases rs.len(),
{
    if rs.len() > 0 {
        lemma_failed_and_passed(rs.drop_last());
    }
}

/// Every result that did not pass falls in exactly one failure group: the
/// group counts add up to the number of failed results.
pub proof fn lemma_failure_groups_partition(g: Seq<FailureGroupSummary>, rs: Seq<BenchmarkResult>)
    requires
        failure_groups_spec(g, rs),
    ensures
        failure_counts_sum(g) + count_passed(rs) == rs.len(),
{
    let fl = failure_labels_of(g);
    assert(no_repeats(fl)) by {
        assert forall|i: int, j: int| 0 <= i < j < fl.len() implies fl[i] != fl[j] by {
            assert(lex_lt(fl[i], fl[j]));
            lemma_lex_irreflexive(fl[i]);
        }
    }
    lemma_failure_counts_are_counts(g, failed_labels(rs));
    lemma_count_sum_covers(fl, failed_labels(rs));
    lemma_failed_and_passed(rs);
}

// ---------------------------------------------------------------------------
// Result rows of the report
// ---------------------------------------------------------------------------

/// The text cells of one result in the report's table; the routing
/// confidence, a fraction, is printed beside `routing_display` where the
/// page is drawn.
pub struct ResultRow {
    pub id: String,
    pub suite_display: String,
    pub token_count_display: String,
    pub model_display: String,
    pub status_text: String,
    pub attempts: u32,
    pub latency_ms: u64,
    pub input_tokens: u64,
    pub http_status_display: String,
    pub request_id_display: String,
    pub rate_limit_remaining_display: String,
    pub rate_limit_reset_display: String,
    pub error_kind_display: String,
    pub routing_display: String,
    pub routing_context_display: String,
    pub judge_display: String,
    pub answer_display: String,
    pub error_display: String,
}

pub open spec fn text_or_empty(o: Option<String>) -> Seq<char> {
    match o {
        Some(s) => s@,
        None => seq![],
    }
}

pub open spec fn number_or_empty(o: Option<u64>) -> Seq<char> {
    match o {
        Some(n) => dec(n as nat),
        None => seq![],
    }
}

fn text_cell(o: &Option<String>) -> (s: String)
    ensures
        s@ == text_or_empty(*o),
{
    match o {
        Some(t) => t.clone(),
        None => String::new(),
    }
}

fn number_cell(o: Option<u64>) -> (s: String)
    ensures
        s@ == number_or_empty(o),
{
    match o {
        Some(n) => string_of(u64_to_chars(n).as_slice()),
        None => String::new(),
    }
}

/// The routing column before the confidence: status and method.
pub open spec fn routing_display_spec(r: BenchmarkResult) -> Seq<char> {
    match r.routing {
        Some(d) => d.status@ + " / "@ + d.method@,
        None => seq![],
    }
}

/// The cells of a result's row: each optional field as text, or empty.
pub fn result_row(r: &BenchmarkResult) -> (row: ResultRow)
    ensures
        row.id@ == r.id@,
        row.suite_display@ == text_or_empty(r.suite),
        row.token_count_display@ == number_or_empty(r.token_count),
        row.model_display@ == text_or_empty(r.provider_model),
        row.status_text@ == (if r.passed { "pass"@ } else { "fail"@ }),
        row.attempts == r.attempts,
        row.latency_ms == r.latency_ms,
        row.input_tokens == r.input_tokens,
        row.http_status_display@ == number_or_empty(
            match r.http_status {
                Some(h) => Some(h as u64),
                None => None,
            },
        ),
        row.request_id_display@ == text_or_empty(r.request_id),
        row.rate_limit_remaining_display@ == text_or_empty(r.rate_limit_remaining),
        row.rate_limit_reset_display@ == text_or_empty(r.rate_limit_reset),
        row.error_kind_display@ == match r.error_kind {
            Some(k) => k.name_spec(),
            None => seq![],
        },
        row.routing_display@ == routing_display_spec(*r),
        row.routing_context_display@ == match r.routing {
            Some(d) => text_or_empty(d.selected_context_path),
            None => seq![],
        },
        row.judge_display@ == judge_display_spec(*r),
        row.answer_display@ == text_or_empty(r.answer),
        row.error_display@ == text_or_empty(r.error),
{
    let routing_display = match &r.routing {
        Some(d) => {
            let mut v: Vec<char> = Vec::new();
            extend_str(&mut v, d.status.as_str());
            extend_str(&mut v, " / ");
            extend_str(&mut v, d.method.as_str());
            string_of(v.as_slice())
        },
        None => String::new(),
    };
    let routing_context_display = match &r.routing {
        Some(d) => text_cell(&d.selected_context_path),
        None => String::new(),
    };
    ResultRow {
        id: r.id.clone(),
        suite_display: text_cell(&r.suite),
        token_count_display: number_cell(r.token_count),
        model_display: text_cell(&r.provider_model),
        status_text: if r.passed {
            String::from_str("pass")
        } else {
            String::from_str("fail")
        },
        attempts: r.attempts,
        latency_ms: r.latency_ms,
        input_tokens: r.input_tokens,
        http_status_display: number_cell(
            match r.http_status {
                Some(h) => Some(h as u64),
                None => None,
            },
        ),
        request_id_display: text_cell(&r.request_id),
        rate_limit_remaining_display: text_cell(&r.rate_limit_remaining),
        rate_limit_reset_display: text_cell(&r.rate_limit_reset),
        error_kind_display: match r.error_kind {
            Some(k) => k.name(),
            None => String::new(),
        },
        routing_display,
        routing_context_display,
        judge_display: render_judge_display(r),
        answer_display: text_cell(&r.answer),
        error_display: text_cell(&r.error),
    }
}

} // verus!
