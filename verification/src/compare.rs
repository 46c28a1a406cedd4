use vstd::prelude::*;

use crate::benchmark::BenchmarkResult;
use crate::text::{
    chars_of, dec, dec_signed, extend_chars, extend_str, i64_to_chars, insert_sorted_unique,
    join_seq, join_strings, slices_equal_chars, string_of, strictly_sorted, strings_view,
    u64_to_chars,
};

verus! {

pub struct ComparisonSummary {
    pub baseline_total: usize,
    pub candidate_total: usize,
    pub common_total: usize,
    pub improved_ids: Vec<String>,
    pub regressed_ids: Vec<String>,
    pub added_ids: Vec<String>,
    pub removed_ids: Vec<String>,
    pub avg_latency_delta_ms: i64,
    pub avg_input_tokens_delta: i64,
    pub avg_output_tokens_delta: i64,
}

// ---------------------------------------------------------------------------
// Averages
// ---------------------------------------------------------------------------

/// Integer division rounding toward zero (Rust's `/` on signed integers).
pub open spec fn div_toward_zero(sum: int, count: int) -> int {
    if sum >= 0 {
        sum / count
    } else {
        -((-sum) / count)
    }
}

pub open spec fn clamp_i64(x: int) -> int {
    if x < i64::MIN {
        i64::MIN as int
    } else if x > i64::MAX {
        i64::MAX as int
    } else {
        x
    }
}

pub open spec fn average_spec(sum: int, count: nat) -> int {
    if count == 0 {
        0
    } else {
        clamp_i64(div_toward_zero(sum, count as int))
    }
}

/// The average of `count` deltas summing to `sum`, rounded toward zero and
/// clamped to `i64`; 0 for no deltas.
pub fn average_delta(sum: i128, count: usize) -> (r: i64)
    ensures
        r as int == average_spec(sum as int, count as nat),
{
    if count == 0 {
        return 0;
    }
    let q: i128 = if sum >= 0 {
        ((sum as u128) / (count as u128)) as i128
    } else {
        let magnitude: u128 = if sum == i128::MIN {
            0x8000_0000_0000_0000_0000_0000_0000_0000u128
        } else {
            (-sum) as u128
        };
        let m = magnitude / (count as u128);
        assert(m <= 0x8000_0000_0000_0000_0000_0000_0000_0000u128);
        if m == 0x8000_0000_0000_0000_0000_0000_0000_0000u128 {
            i128::MIN
        } else {
            -(m as i128)
        }
    };
    if q < (i64::MIN as i128) {
        i64::MIN
    } else if q > (i64::MAX as i128) {
        i64::MAX
    } else {
        q as i64
    }
}

// ---------------------------------------------------------------------------
// Comparing two result sets
// ---------------------------------------------------------------------------

/// The position of the first result with the given id.
pub open spec fn find_id(rs: Seq<BenchmarkResult>, id: Seq<char>) -> Option<int>
    decreases rs.len(),
{
    if rs.len() == 0 {
        None
    } else {
        match find_id(rs.drop_last(), id) {
            Some(i) => Some(i),
            None => if rs.last().id@ == id {
                Some(rs.len() - 1)
            } else {
                None
            },
        }
    }
}

pub open spec fn has_id(rs: Seq<BenchmarkResult>, id: Seq<char>) -> bool {
    exists|i: int| 0 <= i < rs.len() && (#[trigger] rs[i]).id@ == id
}

pub open spec fn ids_unique(rs: Seq<BenchmarkResult>) -> bool {
    forall|i: int, j: int| 0 <= i < j < rs.len() ==> (#[trigger] rs[i]).id@ != (#[trigger] rs[j]).id@
}

/// Summed candidate-minus-baseline deltas of one metric over the ids that
/// both sets hold (`metric` 0: latency, 1: input tokens, 2: output tokens).
pub open spec fn delta_sum(b: Seq<BenchmarkResult>, c: Seq<BenchmarkResult>, metric: int) -> int
    decreases b.len(),
{
    if b.len() == 0 {
        0
    } else {
        delta_sum(b.drop_last(), c, metric) + match find_id(c, b.last().id@) {
            Some(j) => metric_of(c[j], metric) - metric_of(b.last(), metric),
            None => 0,
        }
    }
}

pub open spec fn metric_of(r: BenchmarkResult, metric: int) -> int {
    if metric == 0 {
        r.latency_ms as int
    } else if metric == 1 {
        r.input_tokens as int
    } else {
        r.output_tokens as int
    }
}

pub open spec fn common_count(b: Seq<BenchmarkResult>, c: Seq<BenchmarkResult>) -> nat
    decreases b.len(),
{
    if b.len() == 0 {
        0
    } else {
        common_count(b.drop_last(), c) + if find_id(c, b.last().id@) is Some {
            1nat
        } else {
            0nat
        }
    }
}

/// `x` is the id of a baseline result that failed and whose candidate passed.
pub open spec fn improved(b: Seq<BenchmarkResult>, c: Seq<BenchmarkResult>, x: Seq<char>) -> bool {
    exists|i: int, j: int|
        0 <= i < b.len() && 0 <= j < c.len() && (#[trigger] b[i]).id@ == x && (#[trigger] c[j]).id@
            == x && !b[i].passed && c[j].passed
}

pub open spec fn regressed(b: Seq<BenchmarkResult>, c: Seq<BenchmarkResult>, x: Seq<char>) -> bool {
    exists|i: int, j: int|
        0 <= i < b.len() && 0 <= j < c.len() && (#[trigger] b[i]).id@ == x && (#[trigger] c[j]).id@
            == x && b[i].passed && !c[j].passed
}

proof fn lemma_find_id(rs: Seq<BenchmarkResult>, id: Seq<char>)
    ensures
        match find_id(rs, id) {
            Some(i) => 0 <= i < rs.len() && rs[i].id@ == id && forall|k: int|
                0 <= k < i ==> rs[k].id@ != id,
            None => !has_id(rs, id),
        },
    decreases rs.len(),
{
    if rs.len() > 0 {
        let p = rs.drop_last();
        lemma_find_id(p, id);
        match find_id(p, id) {
            Some(i) => {
                assert(rs[i] == p[i]);
                assert forall|k: int| 0 <= k < i implies rs[k].id@ != id by {
                    assert(rs[k] == p[k]);
                }
            },
            None => {
                assert forall|k: int| 0 <= k < rs.len() - 1 implies rs[k].id@ != id by {
                    assert(rs[k] == p[k]);
                    if rs[k].id@ == id {
                        assert(has_id(p, id));
                    }
                }
                if rs.last().id@ != id {
                    assert forall|k: int| 0 <= k < rs.len() implies rs[k].id@ != id by {
                        if k < rs.len() - 1 {
                            assert(rs[k] == p[k]);
                            if rs[k].id@ == id {
                                assert(has_id(p, id));
                            }
                        }
                    }
                }
            },
        }
    }
}

proof fn lemma_self_prefix(rs: Seq<BenchmarkResult>, k: int)
    requires
        ids_unique(rs),
        0 <= k <= rs.len(),
    ensures
        common_count(rs.take(k), rs) == k,
        forall|m: int| delta_sum(rs.take(k), rs, m) == 0,
    decreases k,
{
    if k > 0 {
        let p = rs.take(k);
        assert(p.drop_last() =~= rs.take(k - 1));
        lemma_self_prefix(rs, k - 1);
        lemma_find_id(rs, rs[k - 1].id@);
        assert(find_id(rs, rs[k - 1].id@) == Some(k - 1));
        assert(p.last() == rs[k - 1]);
        assert forall|m: int| delta_sum(p, rs, m) == 0 by {
            assert(delta_sum(p.drop_last(), rs, m) == 0);
        }
    }
}

/// Comparing a result set with itself reports no change: no id improved,
/// regressed, was added or removed, every id is common, and every average
/// delta is zero.
pub proof fn lemma_self_comparison_is_neutral(rs: Seq<BenchmarkResult>)
    requires
        ids_unique(rs),
    ensures
        forall|x: Seq<char>| !improved(rs, rs, x) && !regressed(rs, rs, x),
        forall|x: Seq<char>| !(has_id(rs, x) && !has_id(rs, x)),
        common_count(rs, rs) == rs.len(),
        average_spec(delta_sum(rs, rs, 0), common_count(rs, rs)) == 0,
        average_spec(delta_sum(rs, rs, 1), common_count(rs, rs)) == 0,
        average_spec(delta_sum(rs, rs, 2), common_count(rs, rs)) == 0,
{
    lemma_self_prefix(rs, rs.len() as int);
    assert(rs.take(rs.len() as int) =~= rs);
    assert forall|x: Seq<char>| !improved(rs, rs, x) && !regressed(rs, rs, x) by {
        if improved(rs, rs, x) {
            let (i, j) = choose|i: int, j: int|
                0 <= i < rs.len() && 0 <= j < rs.len() && (#[trigger] rs[i]).id@ == x
                    && (#[trigger] rs[j]).id@ == x && !rs[i].passed && rs[j].passed;
            assert(i != j);
            if i < j {
                assert(rs[i].id@ != rs[j].id@);
            } else {
                assert(rs[j].id@ != rs[i].id@);
            }
        }
        if regressed(rs, rs, x) {
            let (i, j) = choose|i: int, j: int|
                0 <= i < rs.len() && 0 <= j < rs.len() && (#[trigger] rs[i]).id@ == x
                    && (#[trigger] rs[j]).id@ == x && rs[i].passed && !rs[j].passed;
            assert(i != j);
            if i < j {
                assert(rs[i].id@ != rs[j].id@);
            } else {
                assert(rs[j].id@ != rs[i].id@);
            }
        }
    }
}

/// No id is both improved and regressed, and an id that was added or
/// removed is not common to both sets.
pub proof fn lemma_comparison_classes_are_disjoint(b: Seq<BenchmarkResult>, c: Seq<BenchmarkResult>, x: Seq<char>)
    requires
        ids_unique(b),
        ids_unique(c),
    ensures
        !(improved(b, c, x) && regressed(b, c, x)),
        (improved(b, c, x) || regressed(b, c, x)) ==> has_id(b, x) && has_id(c, x),
        !((has_id(c, x) && !has_id(b, x)) && (has_id(b, x) && !has_id(c, x))),
{
    if improved(b, c, x) && regressed(b, c, x) {
        let (i, j) = choose|i: int, j: int|
            0 <= i < b.len() && 0 <= j < c.len() && (#[trigger] b[i]).id@ == x
                && (#[trigger] c[j]).id@ == x && !b[i].passed && c[j].passed;
        let (i2, j2) = choose|i: int, j: int|
            0 <= i < b.len() && 0 <= j < c.len() && (#[trigger] b[i]).id@ == x
                && (#[trigger] c[j]).id@ == x && b[i].passed && !c[j].passed;
        if i < i2 {
            assert(b[i].id@ != b[i2].id@);
        } else if i2 < i {
            assert(b[i2].id@ != b[i].id@);
        }
    }
    if improved(b, c, x) {
        let (i, j) = choose|i: int, j: int|
            0 <= i < b.len() && 0 <= j < c.len() && (#[trigger] b[i]).id@ == x
                && (#[trigger] c[j]).id@ == x && !b[i].passed && c[j].passed;
        assert(b[i].id@ == x && c[j].id@ == x);
    }
    if regressed(b, c, x) {
        let (i, j) = choose|i: int, j: int|
            0 <= i < b.len() && 0 <= j < c.len() && (#[trigger] b[i]).id@ == x
                && (#[trigger] c[j]).id@ == x && b[i].passed && !c[j].passed;
        assert(b[i].id@ == x && c[j].id@ == x);
    }
}

// ---------------------------------------------------------------------------
// Swapping baseline and candidate
// ---------------------------------------------------------------------------

/// What one pair of results adds to a delta sum, and to the common count.
pub open spec fn pair_delta(x: BenchmarkResult, y: BenchmarkResult, metric: int) -> int {
    if x.id@ == y.id@ {
        metric_of(y, metric) - metric_of(x, metric)
    } else {
        0
    }
}

pub open spec fn pair_common(x: BenchmarkResult, y: BenchmarkResult) -> int {
    if x.id@ == y.id@ {
        1
    } else {
        0
    }
}

/// Sums over a grid: one row, all rows, one column, all columns.
pub open spec fn grid_row(f: spec_fn(int, int) -> int, i: int, k: nat) -> int
    decreases k,
{
    if k == 0 {
        0
    } else {
        grid_row(f, i, (k - 1) as nat) + f(i, k - 1)
    }
}

pub open spec fn grid_rows(f: spec_fn(int, int) -> int, n: nat, k: nat) -> int
    decreases n,
{
    if n == 0 {
        0
    } else {
        grid_rows(f, (n - 1) as nat, k) + grid_row(f, n - 1, k)
    }
}

pub open spec fn grid_col(f: spec_fn(int, int) -> int, j: int, n: nat) -> int
    decreases n,
{
    if n == 0 {
        0
    } else {
        grid_col(f, j, (n - 1) as nat) + f(n - 1, j)
    }
}

pub open spec fn grid_cols(f: spec_fn(int, int) -> int, n: nat, k: nat) -> int
    decreases k,
{
    if k == 0 {
        0
    } else {
        grid_cols(f, n, (k - 1) as nat) + grid_col(f, k - 1, n)
    }
}

proof fn lemma_cols_step(f: spec_fn(int, int) -> int, n: nat, k: nat)
    ensures
        grid_cols(f, n + 1, k) == grid_cols(f, n, k) + grid_row(f, n as int, k),
        grid_cols(f, 0, k) == 0,
    decreases k,
{
    if k > 0 {
        lemma_cols_step(f, n, (k - 1) as nat);
    }
}

/// Summing a grid by rows or by columns gives the same.
proof fn lemma_grid_fubini(f: spec_fn(int, int) -> int, n: nat, k: nat)
    ensures
        grid_rows(f, n, k) == grid_cols(f, n, k),
    decreases n,
{
    lemma_cols_step(f, 0, k);
    if n > 0 {
        lemma_grid_fubini(f, (n - 1) as nat, k);
        lemma_cols_step(f, (n - 1) as nat, k);
    }
}

/// A grid whose cells are those of `f` transposed, negated when `neg`,
/// sums to the sum of `f`, negated when `neg`.
proof fn lemma_grid_transpose(f: spec_fn(int, int) -> int, g: spec_fn(int, int) -> int, n: nat, k: nat, neg: bool)
    requires
        forall|i: int, j: int| #[trigger] g(j, i) == if neg { -f(i, j) } else { f(i, j) },
    ensures
        grid_rows(g, k, n) == if neg { -grid_rows(f, n, k) } else { grid_rows(f, n, k) },
    decreases k,
{
    lemma_grid_fubini(f, n, k);
    if k > 0 {
        lemma_grid_transpose(f, g, n, (k - 1) as nat, neg);
        lemma_row_is_col(f, g, k - 1, n, neg);
        lemma_grid_fubini(f, n, (k - 1) as nat);
    }
}

proof fn lemma_row_is_col(f: spec_fn(int, int) -> int, g: spec_fn(int, int) -> int, j: int, n: nat, neg: bool)
    requires
        forall|i: int, j: int| #[trigger] g(j, i) == if neg { -f(i, j) } else { f(i, j) },
    ensures
        grid_row(g, j, n) == if neg { -grid_col(f, j, n) } else { grid_col(f, j, n) },
    decreases n,
{
    if n > 0 {
        lemma_row_is_col(f, g, j, (n - 1) as nat, neg);
        assert(g(j, n - 1) == if neg { -f(n - 1, j) } else { f(n - 1, j) });
    }
}

/// With unique candidate ids, the row of a baseline result holds its one
/// matching candidate's delta, if any.
proof fn lemma_delta_row(b: Seq<BenchmarkResult>, c: Seq<BenchmarkResult>, metric: int, i: int, k: nat)
    requires
        ids_unique(c),
        0 <= i < b.len(),
        k <= c.len(),
    ensures
        grid_row(|i: int, j: int| pair_delta(b[i], c[j], metric), i, k) == match find_id(c.take(k as int), b[i].id@) {
            Some(j) => metric_of(c[j], metric) - metric_of(b[i], metric),
            None => 0,
        },
        grid_row(|i: int, j: int| pair_common(b[i], c[j]), i, k) == if find_id(c.take(k as int), b[i].id@) is Some {
            1int
        } else {
            0int
        },
    decreases k,
{
    let x = b[i].id@;
    if k > 0 {
        lemma_delta_row(b, c, metric, i, (k - 1) as nat);
        let p = c.take(k as int);
        let q = c.take(k - 1);
        assert(p.drop_last() =~= q);
        assert(p.last() == c[k - 1]);
        lemma_find_id(q, x);
        match find_id(q, x) {
            Some(j) => {
                assert(q[j] == c[j]);
                assert(c[j].id@ != c[k - 1].id@);
            },
            None => {},
        }
    }
}

proof fn lemma_sums_as_grid(b: Seq<BenchmarkResult>, c: Seq<BenchmarkResult>, metric: int, n: nat)
    requires
        ids_unique(c),
        n <= b.len(),
    ensures
        delta_sum(b.take(n as int), c, metric) == grid_rows(
            |i: int, j: int| pair_delta(b[i], c[j], metric),
            n,
            c.len(),
        ),
        common_count(b.take(n as int), c) as int == grid_rows(|i: int, j: int| pair_common(b[i], c[j]), n, c.len()),
    decreases n,
{
    if n > 0 {
        lemma_sums_as_grid(b, c, metric, (n - 1) as nat);
        let p = b.take(n as int);
        assert(p.drop_last() =~= b.take(n - 1));
        assert(p.last() == b[n - 1]);
        lemma_delta_row(b, c, metric, n - 1, c.len());
        assert(c.take(c.len() as int) =~= c);
    }
}

/// Swapping baseline and candidate swaps the improved and regressed ids
/// (the added and removed ones swap by their definition), keeps the common
/// count, and negates every delta sum, so every average delta that the
/// `i64` range does not clamp changes sign.
pub proof fn lemma_swapped_comparison(b: Seq<BenchmarkResult>, c: Seq<BenchmarkResult>)
    requires
        ids_unique(b),
        ids_unique(c),
    ensures
        forall|x: Seq<char>| improved(c, b, x) <==> regressed(b, c, x),
        forall|x: Seq<char>| regressed(c, b, x) <==> improved(b, c, x),
        common_count(c, b) == common_count(b, c),
        forall|m: int| #[trigger] delta_sum(c, b, m) == -delta_sum(b, c, m),
        forall|m: int|
            i64::MIN < div_toward_zero(delta_sum(b, c, m), common_count(b, c) as int) <= i64::MAX ==> #[trigger] average_spec(
                delta_sum(c, b, m),
                common_count(c, b),
            ) == -average_spec(delta_sum(b, c, m), common_count(b, c)),
{
    assert forall|x: Seq<char>| improved(c, b, x) <==> regressed(b, c, x) by {
        if improved(c, b, x) {
            let (i, j) = choose|i: int, j: int|
                0 <= i < c.len() && 0 <= j < b.len() && (#[trigger] c[i]).id@ == x
                    && (#[trigger] b[j]).id@ == x && !c[i].passed && b[j].passed;
            assert(b[j].id@ == x && c[i].id@ == x);
        }
        if regressed(b, c, x) {
            let (i, j) = choose|i: int, j: int|
                0 <= i < b.len() && 0 <= j < c.len() && (#[trigger] b[i]).id@ == x
                    && (#[trigger] c[j]).id@ == x && b[i].passed && !c[j].passed;
            assert(c[j].id@ == x && b[i].id@ == x);
        }
    }
    assert forall|x: Seq<char>| regressed(c, b, x) <==> improved(b, c, x) by {
        if regressed(c, b, x) {
            let (i, j) = choose|i: int, j: int|
                0 <= i < c.len() && 0 <= j < b.len() && (#[trigger] c[i]).id@ == x
                    && (#[trigger] b[j]).id@ == x && c[i].passed && !b[j].passed;
            assert(b[j].id@ == x && c[i].id@ == x);
        }
        if improved(b, c, x) {
            let (i, j) = choose|i: int, j: int|
                0 <= i < b.len() && 0 <= j < c.len() && (#[trigger] b[i]).id@ == x
                    && (#[trigger] c[j]).id@ == x && !b[i].passed && c[j].passed;
            assert(c[j].id@ == x && b[i].id@ == x);
        }
    }
    assert(b.take(b.len() as int) =~= b);
    assert(c.take(c.len() as int) =~= c);
    let fc = |i: int, j: int| pair_common(b[i], c[j]);
    let gc = |j: int, i: int| pair_common(c[j], b[i]);
    lemma_sums_as_grid(b, c, 0, b.len());
    lemma_sums_as_grid(c, b, 0, c.len());
    assert(forall|i: int, j: int| #[trigger] gc(j, i) == fc(i, j));
    lemma_grid_transpose(fc, gc, b.len(), c.len(), false);
    assert forall|m: int| #[trigger] delta_sum(c, b, m) == -delta_sum(b, c, m) by {
        let f = |i: int, j: int| pair_delta(b[i], c[j], m);
        let g = |j: int, i: int| pair_delta(c[j], b[i], m);
        lemma_sums_as_grid(b, c, m, b.len());
        lemma_sums_as_grid(c, b, m, c.len());
        assert(forall|i: int, j: int| #[trigger] g(j, i) == -f(i, j));
        lemma_grid_transpose(f, g, b.len(), c.len(), true);
    }
    assert forall|m: int|
        i64::MIN < div_toward_zero(delta_sum(b, c, m), common_count(b, c) as int) <= i64::MAX implies #[trigger] average_spec(
            delta_sum(c, b, m),
            common_count(c, b),
        ) == -average_spec(delta_sum(b, c, m), common_count(b, c)) by {
        let sum = delta_sum(b, c, m);
        let n = common_count(b, c) as int;
        assert(delta_sum(c, b, m) == -sum);
        if n > 0 {
            if sum == 0 {
                assert(0int / n == 0) by (nonlinear_arith)
                    requires
                        n > 0,
                ;
            }
            assert(div_toward_zero(-sum, n) == -div_toward_zero(sum, n));
        }
    }
}

fn find_result(rs: &Vec<BenchmarkResult>, id: &Vec<char>) -> (r: Option<usize>)
    ensures
        match r {
            Some(i) => find_id(rs@, id@) == Some(i as int),
            None => find_id(rs@, id@) is None,
        },
{
    let mut i: usize = 0;
    while i < rs.len()
        invariant
            i <= rs@.len(),
            find_id(rs@.take(i as int), id@) is None,
        decreases rs@.len() - i,
    {
        assert(rs@.take(i as int + 1).drop_last() =~= rs@.take(i as int));
        let k = chars_of(rs[i].id.as_str());
        if slices_equal_chars(k.as_slice(), id.as_slice()) {
            proof {
                lemma_find_prefix(rs@, i as int + 1, id@);
            }
            return Some(i);
        }
        i = i + 1;
    }
    assert(rs@.take(rs@.len() as int) =~= rs@);
    None
}

proof fn lemma_find_prefix(rs: Seq<BenchmarkResult>, n: int, id: Seq<char>)
    requires
        0 <= n <= rs.len(),
        find_id(rs.take(n), id) is Some,
    ensures
        find_id(rs, id) == find_id(rs.take(n), id),
    decreases rs.len() - n,
{
    if n < rs.len() {
        assert(rs.take(n + 1).drop_last() =~= rs.take(n));
        lemma_find_prefix(rs, n + 1, id);
    } else {
        assert(rs.take(n) =~= rs);
    }
}

/// Whether two results of `rs` share an id.
/// Row `j` is the first whose id occurs in an earlier row.
pub open spec fn first_dup_row(rs: Seq<BenchmarkResult>, j: int) -> bool {
    &&& 0 <= j < rs.len()
    &&& ids_unique(rs.take(j))
    &&& exists|i: int| 0 <= i < j && (#[trigger] rs[i]).id@ == rs[j].id@
}

/// The first row, from `k` on, that a results reader refuses for its
/// schema, rows numbered from 1.
pub open spec fn rows_schema_error(rs: Seq<BenchmarkResult>, k: int) -> Option<Seq<char>>
    decreases rs.len() - k,
{
    if k < 0 || k >= rs.len() {
        None
    } else {
        match crate::report::result_schema_error(rs[k], (k + 1) as nat) {
            Some(m) => Some(m),
            None => rows_schema_error(rs, k + 1),
        }
    }
}

/// Refuses the first row whose schema, or whose routing decision's schema,
/// is newer than this reader's.
fn check_rows_schema(rs: &Vec<BenchmarkResult>) -> (r: Result<(), String>)
    ensures
        match rows_schema_error(rs@, 0) {
            Some(m) => r matches Err(e) && e@ == m,
            None => r is Ok,
        },
{
    let mut k: usize = 0;
    while k < rs.len()
        invariant
            k <= rs@.len(),
            rows_schema_error(rs@, 0) == rows_schema_error(rs@, k as int),
        decreases rs@.len() - k,
    {
        crate::report::check_result_schema(&rs[k], (k + 1) as u64)?;
        k = k + 1;
    }
    Ok(())
}

fn has_duplicate(rs: &Vec<BenchmarkResult>) -> (r: Option<usize>)
    ensures
        r is None <==> ids_unique(rs@),
        match r {
            Some(j) => first_dup_row(rs@, j as int),
            None => true,
        },
{
    let mut j: usize = 0;
    while j < rs.len()
        invariant
            j <= rs@.len(),
            ids_unique(rs@.take(j as int)),
        decreases rs@.len() - j,
    {
        let id = chars_of(rs[j].id.as_str());
        let mut i: usize = 0;
        while i < j
            invariant
                i <= j < rs@.len(),
                ids_unique(rs@.take(j as int)),
                id@ == rs@[j as int].id@,
                forall|k: int| 0 <= k < i ==> rs@[k].id@ != id@,
            decreases j - i,
        {
            let other = chars_of(rs[i].id.as_str());
            if slices_equal_chars(other.as_slice(), id.as_slice()) {
                assert(!ids_unique(rs@)) by {
                    assert(rs@[i as int].id@ == rs@[j as int].id@);
                }
                assert(rs@[i as int].id@ == rs@[j as int].id@);
                return Some(j);
            }
            i = i + 1;
        }
        assert forall|a: int, b: int| 0 <= a < b < j + 1 implies (#[trigger] rs@.take(
            j as int + 1,
        )[a]).id@ != (#[trigger] rs@.take(j as int + 1)[b]).id@ by {
            if b < j {
                assert(rs@.take(j as int)[a] == rs@[a]);
                assert(rs@.take(j as int)[b] == rs@[b]);
            }
        }
        j = j + 1;
    }
    assert(rs@.take(rs@.len() as int) =~= rs@);
    None
}

pub open spec fn sorted_ids_of(v: Vec<String>, pred: spec_fn(Seq<char>) -> bool) -> bool {
    &&& strictly_sorted(strings_view(v@))
    &&& forall|x: Seq<char>| strings_view(v@).contains(x) <==> pred(x)
}

pub open spec fn duplicate_error(baseline_side: bool, rs: Seq<BenchmarkResult>, j: int) -> Seq<char> {
    if baseline_side {
        "duplicate result id in baseline results: "@ + rs[j].id@
    } else {
        "duplicate result id in candidate results: "@ + rs[j].id@
    }
}

/// Compares baseline and candidate results by id. A row with a newer schema
/// than this reader's is refused (rows numbered from 1), and both sets must
/// hold each id once; ids are reported in sorted order, and metric deltas
/// are averaged over the ids that both sets hold.
pub fn compare_results(
    baseline: &Vec<BenchmarkResult>,
    candidate: &Vec<BenchmarkResult>,
) -> (r: Result<ComparisonSummary, String>)
    requires
        baseline@.len() <= 0x1_0000_0000_0000,
    ensures
        r is Err <==> rows_schema_error(baseline@, 0) is Some || rows_schema_error(candidate@, 0) is Some
            || !ids_unique(baseline@) || !ids_unique(candidate@),
        match r {
            Err(e) => match rows_schema_error(baseline@, 0) {
                Some(m) => e@ == m,
                None => match rows_schema_error(candidate@, 0) {
                    Some(m) => e@ == m,
                    None => if !ids_unique(baseline@) {
                        exists|j: int| first_dup_row(baseline@, j) && e@ == duplicate_error(true, baseline@, j)
                    } else {
                        exists|j: int| first_dup_row(candidate@, j) && e@ == duplicate_error(false, candidate@, j)
                    },
                },
            },
            Ok(s) => {
                let b = baseline@;
                let c = candidate@;
                &&& s.baseline_total == b.len()
                &&& s.candidate_total == c.len()
                &&& s.common_total == common_count(b, c)
                &&& sorted_ids_of(s.improved_ids, |x: Seq<char>| improved(b, c, x))
                &&& sorted_ids_of(s.regressed_ids, |x: Seq<char>| regressed(b, c, x))
                &&& sorted_ids_of(s.added_ids, |x: Seq<char>| has_id(c, x) && !has_id(b, x))
                &&& sorted_ids_of(s.removed_ids, |x: Seq<char>| has_id(b, x) && !has_id(c, x))
                &&& s.avg_latency_delta_ms as int == average_spec(delta_sum(b, c, 0), common_count(b, c))
                &&& s.avg_input_tokens_delta as int == average_spec(delta_sum(b, c, 1), common_count(b, c))
                &&& s.avg_output_tokens_delta as int == average_spec(delta_sum(b, c, 2), common_count(b, c))
            },
        },
{
    check_rows_schema(baseline)?;
    check_rows_schema(candidate)?;
    if let Some(j) = has_duplicate(baseline) {
        let mut msg: Vec<char> = Vec::new();
        extend_str(&mut msg, "duplicate result id in baseline results: ");
        extend_str(&mut msg, baseline[j].id.as_str());
        assert(msg@ =~= duplicate_error(true, baseline@, j as int));
        return Err(string_of(msg.as_slice()));
    }
    if let Some(j) = has_duplicate(candidate) {
        let mut msg: Vec<char> = Vec::new();
        extend_str(&mut msg, "duplicate result id in candidate results: ");
        extend_str(&mut msg, candidate[j].id.as_str());
        assert(msg@ =~= duplicate_error(false, candidate@, j as int));
        return Err(string_of(msg.as_slice()));
    }
    let ghost b = baseline@;
    let ghost c = candidate@;
    let mut improved_ids: Vec<String> = Vec::new();
    let mut regressed_ids: Vec<String> = Vec::new();
    let mut removed_ids: Vec<String> = Vec::new();
    let mut common: usize = 0;
    let mut lat: i128 = 0;
    let mut inp: i128 = 0;
    let mut out: i128 = 0;
    let mut i: usize = 0;
    while i < baseline.len()
        invariant
            i <= b.len(),
            b == baseline@,
            c == candidate@,
            b.len() <= 0x1_0000_0000_0000,
            ids_unique(b),
            ids_unique(c),
            common as nat == common_count(b.take(i as int), c),
            common <= i,
            lat as int == delta_sum(b.take(i as int), c, 0),
            inp as int == delta_sum(b.take(i as int), c, 1),
            out as int == delta_sum(b.take(i as int), c, 2),
            -0x1_0000_0000_0000_0000 * (i as int) <= lat as int <= 0x1_0000_0000_0000_0000 * (i as int),
            -0x1_0000_0000_0000_0000 * (i as int) <= inp as int <= 0x1_0000_0000_0000_0000 * (i as int),
            -0x1_0000_0000_0000_0000 * (i as int) <= out as int <= 0x1_0000_0000_0000_0000 * (i as int),
            strictly_sorted(strings_view(improved_ids@)),
            strictly_sorted(strings_view(regressed_ids@)),
            strictly_sorted(strings_view(removed_ids@)),
            forall|x: Seq<char>|
                strings_view(improved_ids@).contains(x) <==> improved(b.take(i as int), c, x),
            forall|x: Seq<char>|
                strings_view(regressed_ids@).contains(x) <==> regressed(b.take(i as int), c, x),
            forall|x: Seq<char>|
                #![trigger strings_view(removed_ids@).contains(x)]
                #![trigger has_id(b.take(i as int), x)]
                strings_view(removed_ids@).contains(x) <==> (has_id(b.take(i as int), x) && !has_id(c, x)),
        decreases b.len() - i,
    {
        let ghost bi = b.take(i as int);
        let ghost bn = b.take(i as int + 1);
        assert(bn.drop_last() =~= bi);
        assert(bn.last() == b[i as int]);
        let id = chars_of(baseline[i].id.as_str());
        proof {
            lemma_find_id(c, b[i as int].id@);
            lemma_has_id_step(b, i as int);
        }
        let ghost old_removed = removed_ids@;
        let found = find_result(candidate, &id);
        let ghost in_c = found.is_some();
        match found {
            Some(j) => {
                common = common + 1;
                lat = lat + (candidate[j].latency_ms as i128 - baseline[i].latency_ms as i128);
                inp = inp + (candidate[j].input_tokens as i128 - baseline[i].input_tokens as i128);
                out = out + (candidate[j].output_tokens as i128 - baseline[i].output_tokens as i128);
                let was = baseline[i].passed;
                let now = candidate[j].passed;
                if !was && now {
                    insert_sorted_unique(&mut improved_ids, baseline[i].id.clone());
                }
                if was && !now {
                    insert_sorted_unique(&mut regressed_ids, baseline[i].id.clone());
                }
                proof {
                    lemma_improved_step(b, c, i as int, j as int);
                    assert(has_id(c, b[i as int].id@)) by {
                        assert(c[j as int].id@ == b[i as int].id@);
                    }
                }
            },
            None => {
                insert_sorted_unique(&mut removed_ids, baseline[i].id.clone());
                proof {
                    lemma_improved_step_none(b, c, i as int);
                }
            },
        }
        assert forall|x: Seq<char>|
            strings_view(removed_ids@).contains(x) <==> (has_id(bn, x) && !has_id(c, x)) by {
            assert(has_id(bn, x) <==> (has_id(bi, x) || b[i as int].id@ == x));
            assert(strings_view(old_removed).contains(x) <==> (has_id(bi, x) && !has_id(c, x)));
            if in_c {
                assert(has_id(c, b[i as int].id@));
            } else {
                assert(!has_id(c, b[i as int].id@));
            }
        }
        i = i + 1;
    }
    assert(b.take(b.len() as int) =~= b);
    let mut added_ids: Vec<String> = Vec::new();
    let mut k: usize = 0;
    while k < candidate.len()
        invariant
            k <= c.len(),
            b == baseline@,
            c == candidate@,
            strictly_sorted(strings_view(added_ids@)),
            forall|x: Seq<char>|
                #![trigger strings_view(added_ids@).contains(x)]
                #![trigger has_id(c.take(k as int), x)]
                strings_view(added_ids@).contains(x) <==> (has_id(c.take(k as int), x) && !has_id(b, x)),
        decreases c.len() - k,
    {
        let id = chars_of(candidate[k].id.as_str());
        proof {
            lemma_find_id(b, c[k as int].id@);
            lemma_has_id_step(c, k as int);
        }
        let ghost ck = c.take(k as int);
        let ghost cn = c.take(k as int + 1);
        let ghost old_added = added_ids@;
        let found = find_result(baseline, &id);
        if found.is_none() {
            insert_sorted_unique(&mut added_ids, candidate[k].id.clone());
        } else {
            assert(has_id(b, c[k as int].id@));
        }
        assert forall|x: Seq<char>|
            strings_view(added_ids@).contains(x) <==> (has_id(cn, x) && !has_id(b, x)) by {
            assert(has_id(cn, x) <==> (has_id(ck, x) || c[k as int].id@ == x));
            assert(strings_view(old_added).contains(x) <==> (has_id(ck, x) && !has_id(b, x)));
        }
        k = k + 1;
    }
    assert(c.take(c.len() as int) =~= c);
    let summary = ComparisonSummary {
        baseline_total: baseline.len(),
        candidate_total: candidate.len(),
        common_total: common,
        improved_ids,
        regressed_ids,
        added_ids,
        removed_ids,
        avg_latency_delta_ms: average_delta(lat, common),
        avg_input_tokens_delta: average_delta(inp, common),
        avg_output_tokens_delta: average_delta(out, common),
    };
    Ok(summary)
}

proof fn lemma_has_id_step(rs: Seq<BenchmarkResult>, i: int)
    requires
        0 <= i < rs.len(),
    ensures
        forall|x: Seq<char>|
            has_id(rs.take(i + 1), x) <==> (has_id(rs.take(i), x) || rs[i].id@ == x),
{
    assert forall|x: Seq<char>|
        has_id(rs.take(i + 1), x) <==> (has_id(rs.take(i), x) || rs[i].id@ == x) by {
        if has_id(rs.take(i + 1), x) {
            let k = choose|k: int| 0 <= k < i + 1 && (#[trigger] rs.take(i + 1)[k]).id@ == x;
            if k < i {
                assert(rs.take(i)[k] == rs[k]);
            }
        }
        if has_id(rs.take(i), x) {
            let k = choose|k: int| 0 <= k < i && (#[trigger] rs.take(i)[k]).id@ == x;
            assert(rs.take(i + 1)[k] == rs[k]);
        }
        if rs[i].id@ == x {
            assert(rs.take(i + 1)[i] == rs[i]);
        }
    }
}

#[verifier::spinoff_prover]
#[verifier::rlimit(30)]
proof fn lemma_improved_step(b: Seq<BenchmarkResult>, c: Seq<BenchmarkResult>, i: int, j: int)
    requires
        0 <= i < b.len(),
        0 <= j < c.len(),
        c[j].id@ == b[i].id@,
        ids_unique(b),
        ids_unique(c),
    ensures
        forall|x: Seq<char>|
            improved(b.take(i + 1), c, x) <==> (improved(b.take(i), c, x) || (x == b[i].id@
                && !b[i].passed && c[j].passed)),
        forall|x: Seq<char>|
            regressed(b.take(i + 1), c, x) <==> (regressed(b.take(i), c, x) || (x == b[i].id@
                && b[i].passed && !c[j].passed)),
{
    assert forall|x: Seq<char>|
        improved(b.take(i + 1), c, x) <==> (improved(b.take(i), c, x) || (x == b[i].id@
            && !b[i].passed && c[j].passed)) by {
        if improved(b.take(i + 1), c, x) {
            let (p, q) = choose|p: int, q: int|
                0 <= p < i + 1 && 0 <= q < c.len() && (#[trigger] b.take(i + 1)[p]).id@ == x && (
                #[trigger] c[q]).id@ == x && !b.take(i + 1)[p].passed && c[q].passed;
            if p < i {
                assert(b.take(i)[p] == b[p]);
                assert(b.take(i + 1)[p] == b[p]);
            } else {
                assert(b.take(i + 1)[p] == b[i]);
                assert(q == j);
            }
        }
        if improved(b.take(i), c, x) {
            let (p, q) = choose|p: int, q: int|
                0 <= p < i && 0 <= q < c.len() && (#[trigger] b.take(i)[p]).id@ == x && (
                #[trigger] c[q]).id@ == x && !b.take(i)[p].passed && c[q].passed;
            assert(b.take(i + 1)[p] == b.take(i)[p]);
        }
        if x == b[i].id@ && !b[i].passed && c[j].passed {
            assert(b.take(i + 1)[i] == b[i]);
        }
    }
    assert forall|x: Seq<char>|
        regressed(b.take(i + 1), c, x) <==> (regressed(b.take(i), c, x) || (x == b[i].id@
            && b[i].passed && !c[j].passed)) by {
        if regressed(b.take(i + 1), c, x) {
            let (p, q) = choose|p: int, q: int|
                0 <= p < i + 1 && 0 <= q < c.len() && (#[trigger] b.take(i + 1)[p]).id@ == x && (
                #[trigger] c[q]).id@ == x && b.take(i + 1)[p].passed && !c[q].passed;
            if p < i {
                assert(b.take(i)[p] == b[p]);
                assert(b.take(i + 1)[p] == b[p]);
            } else {
                assert(b.take(i + 1)[p] == b[i]);
                assert(q == j);
            }
        }
        if regressed(b.take(i), c, x) {
            let (p, q) = choose|p: int, q: int|
                0 <= p < i && 0 <= q < c.len() && (#[trigger] b.take(i)[p]).id@ == x && (
                #[trigger] c[q]).id@ == x && b.take(i)[p].passed && !c[q].passed;
            assert(b.take(i + 1)[p] == b.take(i)[p]);
        }
        if x == b[i].id@ && b[i].passed && !c[j].passed {
            assert(b.take(i + 1)[i] == b[i]);
        }
    }
}

proof fn lemma_improved_step_none(b: Seq<BenchmarkResult>, c: Seq<BenchmarkResult>, i: int)
    requires
        0 <= i < b.len(),
        !has_id(c, b[i].id@),
    ensures
        forall|x: Seq<char>| improved(b.take(i + 1), c, x) <==> improved(b.take(i), c, x),
        forall|x: Seq<char>| regressed(b.take(i + 1), c, x) <==> regressed(b.take(i), c, x),
{
    assert forall|x: Seq<char>| improved(b.take(i + 1), c, x) <==> improved(b.take(i), c, x) by {
        if improved(b.take(i + 1), c, x) {
            let (p, q) = choose|p: int, q: int|
                0 <= p < i + 1 && 0 <= q < c.len() && (#[trigger] b.take(i + 1)[p]).id@ == x && (
                #[trigger] c[q]).id@ == x && !b.take(i + 1)[p].passed && c[q].passed;
            if p < i {
                assert(b.take(i)[p] == b.take(i + 1)[p]);
            } else {
                assert(b.take(i + 1)[p] == b[i]);
                assert(c[q].id@ == b[i].id@);
            }
        }
        if improved(b.take(i), c, x) {
            let (p, q) = choose|p: int, q: int|
                0 <= p < i && 0 <= q < c.len() && (#[trigger] b.take(i)[p]).id@ == x && (
                #[trigger] c[q]).id@ == x && !b.take(i)[p].passed && c[q].passed;
            assert(b.take(i + 1)[p] == b.take(i)[p]);
        }
    }
    assert forall|x: Seq<char>| regressed(b.take(i + 1), c, x) <==> regressed(b.take(i), c, x) by {
        if regressed(b.take(i + 1), c, x) {
            let (p, q) = choose|p: int, q: int|
                0 <= p < i + 1 && 0 <= q < c.len() && (#[trigger] b.take(i + 1)[p]).id@ == x && (
                #[trigger] c[q]).id@ == x && b.take(i + 1)[p].passed && !c[q].passed;
            if p < i {
                assert(b.take(i)[p] == b.take(i + 1)[p]);
            } else {
                assert(b.take(i + 1)[p] == b[i]);
                assert(c[q].id@ == b[i].id@);
            }
        }
        if regressed(b.take(i), c, x) {
            let (p, q) = choose|p: int, q: int|
                0 <= p < i && 0 <= q < c.len() && (#[trigger] b.take(i)[p]).id@ == x && (
                #[trigger] c[q]).id@ == x && b.take(i)[p].passed && !c[q].passed;
            assert(b.take(i + 1)[p] == b.take(i)[p]);
        }
    }
}


// ---------------------------------------------------------------------------
// Rendering
// ---------------------------------------------------------------------------

pub open spec fn count_line(label: Seq<char>, n: nat) -> Seq<char> {
    label + dec(n) + "\n"@
}

pub open spec fn ids_line(label: Seq<char>, ids: Seq<Seq<char>>) -> Seq<char> {
    if ids.len() == 0 {
        seq![]
    } else {
        label + join_seq(ids, ", "@) + "\n"@
    }
}

pub open spec fn render_spec(s: ComparisonSummary) -> Seq<char> {
    count_line("baseline: "@, s.baseline_total as nat) + count_line(
        "candidate: "@,
        s.candidate_total as nat,
    ) + count_line("common: "@, s.common_total as nat) + count_line(
        "improved: "@,
        s.improved_ids@.len(),
    ) + count_line("regressed: "@, s.regressed_ids@.len()) + count_line(
        "added: "@,
        s.added_ids@.len(),
    ) + count_line("removed: "@, s.removed_ids@.len()) + "avg latency delta ms: "@
        + dec_signed(s.avg_latency_delta_ms as int) + "\n"@ + "avg input tokens delta: "@
        + dec_signed(s.avg_input_tokens_delta as int) + "\n"@ + "avg output tokens delta: "@
        + dec_signed(s.avg_output_tokens_delta as int) + "\n"@ + ids_line(
        "improved ids: "@,
        strings_view(s.improved_ids@),
    ) + ids_line("regressed ids: "@, strings_view(s.regressed_ids@)) + ids_line(
        "added ids: "@,
        strings_view(s.added_ids@),
    ) + ids_line("removed ids: "@, strings_view(s.removed_ids@))
}

fn push_count_line(r: &mut Vec<char>, label: &str, n: u64)
    ensures
        final(r)@ == old(r)@ + count_line(label@, n as nat),
{
    extend_str(r, label);
    let d = u64_to_chars(n);
    extend_chars(r, d.as_slice());
    extend_str(r, "\n");
    assert(final(r)@ =~= old(r)@ + count_line(label@, n as nat));
}

fn push_signed_line(r: &mut Vec<char>, label: &str, n: i64)
    ensures
        final(r)@ == old(r)@ + label@ + dec_signed(n as int) + "\n"@,
{
    extend_str(r, label);
    let d = i64_to_chars(n);
    extend_chars(r, d.as_slice());
    extend_str(r, "\n");
    assert(final(r)@ =~= old(r)@ + label@ + dec_signed(n as int) + "\n"@);
}

fn push_ids_line(r: &mut Vec<char>, label: &str, ids: &Vec<String>)
    ensures
        final(r)@ == old(r)@ + ids_line(label@, strings_view(ids@)),
{
    if ids.len() == 0 {
        assert(old(r)@ + ids_line(label@, strings_view(ids@)) =~= old(r)@);
        return;
    }
    extend_str(r, label);
    let j = join_strings(ids, ", ");
    extend_chars(r, j.as_slice());
    extend_str(r, "\n");
    assert(final(r)@ =~= old(r)@ + ids_line(label@, strings_view(ids@)));
}

impl ComparisonSummary {
    /// The text summary printed by `compare`.
    pub fn render(&self) -> (out: String)
        ensures
            out@ == render_spec(*self),
    {
        let mut r: Vec<char> = Vec::new();
        push_count_line(&mut r, "baseline: ", self.baseline_total as u64);
        push_count_line(&mut r, "candidate: ", self.candidate_total as u64);
        push_count_line(&mut r, "common: ", self.common_total as u64);
        push_count_line(&mut r, "improved: ", self.improved_ids.len() as u64);
        push_count_line(&mut r, "regressed: ", self.regressed_ids.len() as u64);
        push_count_line(&mut r, "added: ", self.added_ids.len() as u64);
        push_count_line(&mut r, "removed: ", self.removed_ids.len() as u64);
        push_signed_line(&mut r, "avg latency delta ms: ", self.avg_latency_delta_ms);
        push_signed_line(&mut r, "avg input tokens delta: ", self.avg_input_tokens_delta);
        push_signed_line(&mut r, "avg output tokens delta: ", self.avg_output_tokens_delta);
        push_ids_line(&mut r, "improved ids: ", &self.improved_ids);
        push_ids_line(&mut r, "regressed ids: ", &self.regressed_ids);
        push_ids_line(&mut r, "added ids: ", &self.added_ids);
        push_ids_line(&mut r, "removed ids: ", &self.removed_ids);
        assert(r@ =~= render_spec(*self));
        string_of(r.as_slice())
    }
}

/// HTML escaping of one character (`&`, `<`, `>`, `"`, `'`).
pub open spec fn escape_char(c: char) -> Seq<char> {
    if c == '&' {
        "&amp;"@
    } else if c == '<' {
        "&lt;"@
    } else if c == '>' {
        "&gt;"@
    } else if c == '"' {
        "&quot;"@
    } else if c == '\'' {
        "&#x27;"@
    } else {
        seq![c]
    }
}

pub open spec fn html_escape(s: Seq<char>) -> Seq<char>
    decreases s.len(),
{
    if s.len() == 0 {
        seq![]
    } else {
        html_escape(s.drop_last()) + escape_char(s.last())
    }
}

pub fn push_escaped(r: &mut Vec<char>, s: &str)
    ensures
        final(r)@ == old(r)@ + html_escape(s@),
{
    let cs = chars_of(s);
    let mut i: usize = 0;
    while i < cs.len()
        invariant
            i <= cs@.len(),
            cs@ == s@,
            r@ == old(r)@ + html_escape(cs@.take(i as int)),
        decreases cs@.len() - i,
    {
        assert(cs@.take(i as int + 1).drop_last() =~= cs@.take(i as int));
        let c = cs[i];
        let ghost before = r@;
        if c == '&' {
            extend_str(r, "&amp;");
        } else if c == '<' {
            extend_str(r, "&lt;");
        } else if c == '>' {
            extend_str(r, "&gt;");
        } else if c == '"' {
            extend_str(r, "&quot;");
        } else if c == '\'' {
            extend_str(r, "&#x27;");
        } else {
            r.push(c);
        }
        assert(r@ =~= before + escape_char(c));
        i = i + 1;
    }
    assert(cs@.take(cs@.len() as int) =~= cs@);
}

pub open spec fn html_row(label: Seq<char>, value: Seq<char>) -> Seq<char> {
    "<tr><th>"@ + label + "</th><td>"@ + value + "</td></tr>\n"@
}

pub open spec fn escaped_join(ids: Seq<Seq<char>>) -> Seq<char>
    decreases ids.len(),
{
    if ids.len() == 0 {
        seq![]
    } else if ids.len() == 1 {
        html_escape(ids[0])
    } else {
        escaped_join(ids.drop_last()) + ", "@ + html_escape(ids.last())
    }
}

pub open spec fn html_ids(title: Seq<char>, ids: Seq<Seq<char>>) -> Seq<char> {
    "<h2>"@ + title + "</h2>\n<p>"@ + (if ids.len() == 0 {
        "none"@
    } else {
        escaped_join(ids)
    }) + "</p>\n"@
}

pub open spec fn comparison_html_spec(s: ComparisonSummary) -> Seq<char> {
    "<!DOCTYPE html>\n<html lang=\"en\">\n<head>\n<meta charset=\"utf-8\">\n<title>Long Context Comparison Report</title>\n</head>\n<body>\n<h1>Long Context Comparison Report</h1>\n<table>\n"@
        + html_row("Baseline total"@, dec(s.baseline_total as nat)) + html_row(
        "Candidate total"@,
        dec(s.candidate_total as nat),
    ) + html_row("Common"@, dec(s.common_total as nat)) + html_row(
        "Improved"@,
        dec(s.improved_ids@.len()),
    ) + html_row("Regressed"@, dec(s.regressed_ids@.len())) + html_row(
        "Added"@,
        dec(s.added_ids@.len()),
    ) + html_row("Removed"@, dec(s.removed_ids@.len())) + html_row(
        "Avg latency delta (ms)"@,
        dec_signed(s.avg_latency_delta_ms as int),
    ) + html_row("Avg input tokens delta"@, dec_signed(s.avg_input_tokens_delta as int))
        + html_row("Avg output tokens delta"@, dec_signed(s.avg_output_tokens_delta as int))
        + "</table>\n"@ + html_ids("Improved IDs"@, strings_view(s.improved_ids@)) + html_ids(
        "Regressed IDs"@,
        strings_view(s.regressed_ids@),
    ) + html_ids("Added IDs"@, strings_view(s.added_ids@)) + html_ids(
        "Removed IDs"@,
        strings_view(s.removed_ids@),
    ) + "</body>\n</html>\n"@
}

fn push_row(r: &mut Vec<char>, label: &str, value: &Vec<char>)
    ensures
        final(r)@ == old(r)@ + html_row(label@, value@),
{
    extend_str(r, "<tr><th>");
    extend_str(r, label);
    extend_str(r, "</th><td>");
    extend_chars(r, value.as_slice());
    extend_str(r, "</td></tr>\n");
    assert(final(r)@ =~= old(r)@ + html_row(label@, value@));
}

fn push_html_ids(r: &mut Vec<char>, title: &str, ids: &Vec<String>)
    ensures
        final(r)@ == old(r)@ + html_ids(title@, strings_view(ids@)),
{
    let ghost start = r@;
    extend_str(r, "<h2>");
    extend_str(r, title);
    extend_str(r, "</h2>\n<p>");
    let ghost head = r@;
    let ghost iv = strings_view(ids@);
    if ids.len() == 0 {
        extend_str(r, "none");
    } else {
        let mut i: usize = 0;
        while i < ids.len()
            invariant
                i <= ids@.len(),
                ids@.len() > 0,
                iv == strings_view(ids@),
                r@ == head + escaped_join(iv.take(i as int)),
            decreases ids@.len() - i,
        {
            assert(iv.take(i as int + 1).drop_last() =~= iv.take(i as int));
            assert(iv.take(i as int + 1).last() == ids@[i as int]@);
            if i > 0 {
                extend_str(r, ", ");
            }
            push_escaped(r, ids[i].as_str());
            if i == 0 {
                assert(escaped_join(iv.take(1)) == html_escape(ids@[0]@));
            }
            assert(r@ =~= head + escaped_join(iv.take(i as int + 1)));
            i = i + 1;
        }
        assert(iv.take(ids@.len() as int) =~= iv);
    }
    extend_str(r, "</p>\n");
    assert(final(r)@ =~= start + html_ids(title@, strings_view(ids@)));
}

/// A standalone HTML page with the comparison's totals and id lists.
pub fn comparison_html(s: &ComparisonSummary) -> (html: String)
    ensures
        html@ == comparison_html_spec(*s),
{
    let mut r: Vec<char> = Vec::new();
    extend_str(
        &mut r,
        "<!DOCTYPE html>\n<html lang=\"en\">\n<head>\n<meta charset=\"utf-8\">\n<title>Long Context Comparison Report</title>\n</head>\n<body>\n<h1>Long Context Comparison Report</h1>\n<table>\n",
    );
    push_row(&mut r, "Baseline total", &u64_to_chars(s.baseline_total as u64));
    push_row(&mut r, "Candidate total", &u64_to_chars(s.candidate_total as u64));
    push_row(&mut r, "Common", &u64_to_chars(s.common_total as u64));
    push_row(&mut r, "Improved", &u64_to_chars(s.improved_ids.len() as u64));
    push_row(&mut r, "Regressed", &u64_to_chars(s.regressed_ids.len() as u64));
    push_row(&mut r, "Added", &u64_to_chars(s.added_ids.len() as u64));
    push_row(&mut r, "Removed", &u64_to_chars(s.removed_ids.len() as u64));
    push_row(&mut r, "Avg latency delta (ms)", &i64_to_chars(s.avg_latency_delta_ms));
    push_row(&mut r, "Avg input tokens delta", &i64_to_chars(s.avg_input_tokens_delta));
    push_row(&mut r, "Avg output tokens delta", &i64_to_chars(s.avg_output_tokens_delta));
    extend_str(&mut r, "</table>\n");
    push_html_ids(&mut r, "Improved IDs", &s.improved_ids);
    push_html_ids(&mut r, "Regressed IDs", &s.regressed_ids);
    push_html_ids(&mut r, "Added IDs", &s.added_ids);
    push_html_ids(&mut r, "Removed IDs", &s.removed_ids);
    extend_str(&mut r, "</body>\n</html>\n");
    assert(r@ =~= comparison_html_spec(*s));
    string_of(r.as_slice())
}

} // verus!
