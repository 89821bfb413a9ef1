//! The integer side of the CPU silicon fingerprint: medians of timing
//! samples, quantisation of timing ratios into buckets, and the per-bucket
//! majority vote across repeated measurements.
use vstd::prelude::*;
use vstd::relations::{sorted_by, total_ordering};
use vstd::seq_lib::{group_to_multiset_ensures, lemma_sorted_unique};

verus! {

/// The natural order on `u64`.
pub open spec fn u64_leq() -> spec_fn(u64, u64) -> bool {
    |a: u64, b: u64| a <= b
}

/// `s` in ascending order.
pub open spec fn sorted_u64(s: Seq<u64>) -> Seq<u64> {
    s.sort_by(u64_leq())
}

/// The natural order on `u64` is total.
pub proof fn lemma_u64_leq_total()
    ensures
        total_ordering(u64_leq()),
{
}

/// The values of `v` in ascending order.
pub fn sort_u64(v: &Vec<u64>) -> (res: Vec<u64>)
    ensures
        res@ == sorted_u64(v@),
{
    broadcast use group_to_multiset_ensures;

    let n = v.len();
    let mut res: Vec<u64> = Vec::new();
    let mut i: usize = 0;
    assert(v@.take(0) =~= Seq::<u64>::empty());
    while i < n
        invariant
            n == v.len(),
            i <= n,
            sorted_by(res@, u64_leq()),
            res@.to_multiset() == v@.take(i as int).to_multiset(),
        decreases n - i,
    {
        let x = v[i];
        let m = res.len();
        let mut j: usize = 0;
        while j < m && res[j] <= x
            invariant
                m == res.len(),
                j <= m,
                forall|k: int| 0 <= k < j ==> res@[k] <= x,
            decreases m - j,
        {
            j = j + 1;
        }
        let ghost old_res = res@;
        res.insert(j, x);
        assert(res@ == old_res.insert(j as int, x));
        assert forall|a: int, b: int| 0 <= a < b < res@.len() implies #[trigger] (u64_leq())(
            res@[a],
            res@[b],
        ) by {
            if b < j {
                assert((u64_leq())(old_res[a], old_res[b]));
            } else if b == j {
                assert(res@[a] == old_res[a]);
            } else if a < j {
                assert(res@[b] == old_res[b - 1]);
                assert(res@[a] == old_res[a]);
                if j < m {
                    assert(old_res[j as int] > x);
                    assert((u64_leq())(old_res[j as int], old_res[b - 1]) || j == b - 1);
                }
            } else if a == j {
                assert(res@[b] == old_res[b - 1]);
                assert(j < m);
                assert(old_res[j as int] > x);
                assert((u64_leq())(old_res[j as int], old_res[b - 1]) || j == b - 1);
            } else {
                assert((u64_leq())(old_res[a - 1], old_res[b - 1]));
            }
        }
        assert(v@.take(i + 1) =~= v@.take(i as int).push(x));
        proof {
            vstd::seq_lib::to_multiset_insert(old_res, j as int, x);
            vstd::seq_lib::to_multiset_build(v@.take(i as int), x);
        }
        i = i + 1;
    }
    assert(v@.take(n as int) =~= v@);
    proof {
        lemma_u64_leq_total();
        v@.lemma_sort_by_ensures(u64_leq());
        lemma_sorted_unique(res@, sorted_u64(v@), u64_leq());
    }
    res
}

/// The middle element (index `len / 2`) of the sorted samples, as the median
/// of the timing measurements of one workload.
pub fn median_of_samples(samples: &Vec<u64>) -> (m: u64)
    requires
        samples.len() > 0,
    ensures
        m == sorted_u64(samples@)[(samples.len() / 2) as int],
{
    let sorted = sort_u64(samples);
    proof {
        lemma_u64_leq_total();
        samples@.lemma_sort_by_ensures(u64_leq());
        vstd::seq_lib::to_multiset_len(samples@);
        vstd::seq_lib::to_multiset_len(sorted@);
    }
    sorted[samples.len() / 2]
}

/// The six timing ratios as (numerator, denominator) indices into the
/// workload timings of one pass. The workloads are, in order: integer
/// multiply, integer divide, floating-point multiply-add, AES encryption (an
/// integer add chain on machines without AES instructions), bit rotate and
/// XOR. The ratios are mul/div, mul/fp, mul/aes, div/aes, fp/aes and rot/xor.
pub open spec fn ratio_pairs() -> Seq<(int, int)> {
    seq![(0, 1), (0, 2), (0, 3), (1, 3), (2, 3), (4, 5)]
}

/// What one ratio slot divides in a pass: the numerator and denominator
/// timings, or nothing when the denominator timing is zero.
pub open spec fn ratio_operands_spec(timings: Seq<u64>, slot: int) -> Option<(u64, u64)> {
    let (a, b) = ratio_pairs()[slot];
    if timings[b] > 0 {
        Some((timings[a], timings[b]))
    } else {
        None
    }
}

/// The operands of the six ratios of one measurement pass; a slot whose
/// denominator timing is zero collects no ratio in that pass.
pub fn ratio_operands(timings: &[u64; 6]) -> (ops: [Option<(u64, u64)>; 6])
    ensures
        forall|slot: int| 0 <= slot < 6 ==> #[trigger] ops@[slot] == ratio_operands_spec(timings@, slot),
{
    let pick = |a: usize, b: usize| -> (r: Option<(u64, u64)>)
        requires
            a < 6,
            b < 6,
        ensures
            r == (if timings@[b as int] > 0 {
                Some((timings@[a as int], timings@[b as int]))
            } else {
                None
            }),
        {
            if timings[b] > 0 {
                Some((timings[a], timings[b]))
            } else {
                None
            }
        };
    let ops = [pick(0, 1), pick(0, 2), pick(0, 3), pick(1, 3), pick(2, 3), pick(4, 5)];
    assert(ops@ =~= seq![
        ratio_operands_spec(timings@, 0),
        ratio_operands_spec(timings@, 1),
        ratio_operands_spec(timings@, 2),
        ratio_operands_spec(timings@, 3),
        ratio_operands_spec(timings@, 4),
        ratio_operands_spec(timings@, 5),
    ]);
    ops
}

/// Width of a timing-ratio bucket.
pub const BUCKET_WIDTH: u64 = 80;

/// Number of measurement passes whose ratios are collected per slot.
pub const PASSES: usize = 5;

/// Round-to-nearest quantisation of a ratio into a bucket of width 80:
/// `(ratio + 40) / 80`.
pub open spec fn bucket_spec(ratio: u64) -> int {
    (ratio + 40) / 80
}

/// Quantises a ratio into its bucket.
pub fn bucket_of(ratio: u64) -> (b: u64)
    ensures
        b == bucket_spec(ratio),
{
    let q = ratio / BUCKET_WIDTH;
    let r = ratio % BUCKET_WIDTH;
    assert((ratio + 40) / 80 == q + (if r >= 40 {
        1int
    } else {
        0int
    })) by (nonlinear_arith)
        requires
            q == ratio / 80,
            r == ratio % 80,
    ;
    if r >= 40 {
        q + 1
    } else {
        q
    }
}

/// The bucket of one ratio slot: the median (third smallest) of the ratios
/// collected over the passes, or 0 when fewer than three were collected,
/// quantised.
pub open spec fn slot_bucket(samples: Seq<u64>) -> int {
    let s = sorted_u64(samples);
    bucket_spec(
        if s.len() > PASSES / 2 {
            s[(PASSES / 2) as int]
        } else {
            0
        },
    )
}

/// The bucket of one ratio slot from its collected ratios.
pub fn slot_bucket_of(samples: &Vec<u64>) -> (b: u64)
    ensures
        b == slot_bucket(samples@),
{
    let sorted = sort_u64(samples);
    let median = if sorted.len() > PASSES / 2 {
        sorted[PASSES / 2]
    } else {
        0
    };
    bucket_of(median)
}

/// Turns the timing ratios collected over the measurement passes (×100000
/// fixed point, one vector per ratio slot) into the six-bucket CPU timing
/// signature: per slot, the median ratio across passes quantised into buckets
/// of width 80.
pub fn get_cpu_timing_signature(ratio_samples: &[Vec<u64>; 6]) -> (sig: [u64; 6])
    ensures
        forall|i: int| 0 <= i < 6 ==> #[trigger] sig@[i] == slot_bucket(ratio_samples@[i]@),
{
    let b0 = slot_bucket_of(&ratio_samples[0]);
    let b1 = slot_bucket_of(&ratio_samples[1]);
    let b2 = slot_bucket_of(&ratio_samples[2]);
    let b3 = slot_bucket_of(&ratio_samples[3]);
    let b4 = slot_bucket_of(&ratio_samples[4]);
    let b5 = slot_bucket_of(&ratio_samples[5]);
    let sig = [b0, b1, b2, b3, b4, b5];
    assert(sig@ =~= seq![b0, b1, b2, b3, b4, b5]);
    sig
}

/// Number of occurrences of `v` in `s`.
pub open spec fn count_of<A>(s: Seq<A>, v: A) -> nat
    decreases s.len(),
{
    if s.len() == 0 {
        0
    } else {
        count_of(s.drop_last(), v) + if s.last() == v {
            1nat
        } else {
            0nat
        }
    }
}

/// The index the vote settles on after the first `n` values: a later value
/// replaces the current choice only when it occurs strictly more often.
pub open spec fn vote_index<A>(s: Seq<A>, n: int) -> int
    decreases n,
{
    if n <= 1 {
        0
    } else {
        let prev = vote_index(s, n - 1);
        if count_of(s, s[n - 1]) > count_of(s, s[prev]) {
            n - 1
        } else {
            prev
        }
    }
}

/// The value a majority vote picks from `s`: the first of its most frequent
/// values, or 0 for no values.
pub open spec fn majority_spec(s: Seq<u64>) -> u64 {
    if s.len() == 0 {
        0
    } else {
        s[vote_index(s, s.len() as int)]
    }
}

/// The values of one slot across all runs.
pub open spec fn column(runs: Seq<[u64; 6]>, slot: int) -> Seq<u64> {
    runs.map_values(|r: [u64; 6]| r@[slot])
}

/// `count_of` is the multiplicity of a value: the number of positions of `s`
/// holding `v`, whatever the other values; `n` equal values count `n`.
pub proof fn lemma_count_is_multiplicity<A>(s: Seq<A>, v: A)
    ensures
        count_of(s, v) == s.to_multiset().count(v),
        count_of(s, v) == s.filter(|x: A| x == v).len(),
        count_of(s, v) <= s.len(),
        (forall|i: int| 0 <= i < s.len() ==> #[trigger] s[i] == v) ==> count_of(s, v) == s.len(),
    decreases s.len(),
{
    broadcast use vstd::seq_lib::group_to_multiset_ensures;

    if s.len() > 0 {
        let init = s.drop_last();
        lemma_count_is_multiplicity(init, v);
        assert(init.push(s.last()) =~= s);
        vstd::seq_lib::to_multiset_build(init, s.last());
        reveal(Seq::filter);
        if forall|i: int| 0 <= i < s.len() ==> #[trigger] s[i] == v {
            assert forall|i: int| 0 <= i < init.len() implies #[trigger] init[i] == v by {
                assert(s[i] == v);
            }
            assert(s[s.len() - 1] == v);
        }
    } else {
        assert(s.to_multiset() =~= vstd::multiset::Multiset::<A>::empty());
    }
}

/// Counts the occurrences of `v` in `s`.
fn count_exec(s: &Vec<u64>, v: u64) -> (c: usize)
    ensures
        c == count_of(s@, v),
{
    let n = s.len();
    let mut c: usize = 0;
    let mut i: usize = 0;
    assert(s@.take(0) =~= Seq::<u64>::empty());
    while i < n
        invariant
            n == s.len(),
            i <= n,
            c <= i,
            c == count_of(s@.take(i as int), v),
        decreases n - i,
    {
        assert(s@.take(i + 1).drop_last() =~= s@.take(i as int));
        if s[i] == v {
            c = c + 1;
        }
        i = i + 1;
    }
    assert(s@.take(n as int) =~= s@);
    c
}

/// `vote_index` stays within the scanned prefix.
pub proof fn lemma_vote_index_range<A>(s: Seq<A>, n: int)
    requires
        1 <= n,
    ensures
        0 <= vote_index(s, n) < n,
    decreases n,
{
    if n > 1 {
        lemma_vote_index_range(s, n - 1);
    }
}

/// The most frequent value of `s` (the first such in order), or 0 when empty.
pub fn majority_value(s: &Vec<u64>) -> (m: u64)
    ensures
        m == majority_spec(s@),
{
    let n = s.len();
    if n == 0 {
        return 0;
    }
    let mut best: usize = 0;
    let mut best_count = count_exec(s, s[0]);
    let mut i: usize = 1;
    while i < n
        invariant
            n == s.len(),
            1 <= i <= n,
            best < i,
            best == vote_index(s@, i as int),
            best_count == count_of(s@, s@[best as int]),
        decreases n - i,
    {
        let c = count_exec(s, s[i]);
        if c > best_count {
            best = i;
            best_count = c;
        }
        i = i + 1;
    }
    s[best]
}

/// Per-bucket majority vote over repeated signature measurements: for each of
/// the six slots, the most frequent bucket value across the runs (the first
/// such value in run order on a tie), or 0 when there are no runs.
pub fn get_robust_cpu_timing_signature(runs: &Vec<[u64; 6]>) -> (sig: [u64; 6])
    ensures
        forall|slot: int| 0 <= slot < 6 ==> #[trigger] sig@[slot] == majority_spec(column(runs@, slot)),
{
    let mut result: Vec<u64> = Vec::new();
    let mut slot: usize = 0;
    while slot < 6
        invariant
            slot <= 6,
            result@.len() == slot,
            forall|k: int| 0 <= k < slot ==> #[trigger] result@[k] == majority_spec(column(runs@, k)),
        decreases 6 - slot,
    {
        let mut col: Vec<u64> = Vec::new();
        let n = runs.len();
        let mut i: usize = 0;
        while i < n
            invariant
                n == runs.len(),
                slot < 6,
                i <= n,
                col@ == column(runs@, slot as int).take(i as int),
            decreases n - i,
        {
            let run = &runs[i];
            col.push(run[slot]);
            assert(col@ =~= column(runs@, slot as int).take(i + 1));
            i = i + 1;
        }
        assert(col@ =~= column(runs@, slot as int));
        let m = majority_value(&col);
        result.push(m);
        slot = slot + 1;
    }
    let sig = [result[0], result[1], result[2], result[3], result[4], result[5]];
    assert(sig@ =~= result@);
    sig
}

/// A value occurs in `s` exactly when its count is positive.
pub proof fn lemma_count_contains<A>(s: Seq<A>, v: A)
    ensures
        count_of(s, v) > 0 <==> s.contains(v),
    decreases s.len(),
{
    if s.len() > 0 {
        lemma_count_contains(s.drop_last(), v);
        if s.drop_last().contains(v) {
            let k = choose|k: int| 0 <= k < s.drop_last().len() && s.drop_last()[k] == v;
            assert(s[k] == v);
        }
        if s.contains(v) && s.last() != v {
            let k = choose|k: int| 0 <= k < s.len() && s[k] == v;
            assert(s.drop_last()[k] == v);
        }
        if s.last() == v {
            assert(s[s.len() - 1] == v);
        }
    }
}

/// The vote over the first `n` values settles on a value that occurs at
/// least as often (in all of `s`) as every one of those values, and on the
/// first index holding such a count.
pub proof fn lemma_vote_index_best<A>(s: Seq<A>, n: int)
    requires
        1 <= n <= s.len(),
    ensures
        forall|j: int| 0 <= j < n ==> count_of(s, #[trigger] s[j]) <= count_of(s, s[vote_index(s, n)]),
        forall|j: int| 0 <= j < vote_index(s, n) ==> count_of(s, #[trigger] s[j]) < count_of(s, s[vote_index(s, n)]),
    decreases n,
{
    if n > 1 {
        lemma_vote_index_best(s, n - 1);
        lemma_vote_index_range(s, n - 1);
    }
}

/// A vote over a non-empty sequence picks a most frequent value: it occurs
/// in `s`, no value occurs more often, and every value before the chosen
/// index occurs strictly less often. If all values are equal the vote picks
/// that value.
pub proof fn lemma_vote_is_mode<A>(s: Seq<A>)
    requires
        s.len() > 0,
    ensures
        0 <= vote_index(s, s.len() as int) < s.len(),
        forall|v: A| #[trigger]
            count_of(s, v) <= count_of(s, s[vote_index(s, s.len() as int)]),
        forall|j: int|
            0 <= j < vote_index(s, s.len() as int) ==> count_of(s, #[trigger] s[j]) < count_of(
                s,
                s[vote_index(s, s.len() as int)],
            ),
        (forall|j: int| 0 <= j < s.len() ==> #[trigger] s[j] == s[0]) ==> s[vote_index(
            s,
            s.len() as int,
        )] == s[0],
{
    let n = s.len() as int;
    lemma_vote_index_range(s, n);
    lemma_vote_index_best(s, n);
    let k = vote_index(s, n);
    assert forall|v: A| #[trigger] count_of(s, v) <= count_of(s, s[k]) by {
        lemma_count_contains(s, v);
        if s.contains(v) {
            let j = choose|j: int| 0 <= j < s.len() && s[j] == v;
            assert(count_of(s, s[j]) <= count_of(s, s[k]));
        }
    }
}

/// The per-slot majority vote picks a most frequent value: it occurs in `s`,
/// no value occurs more often, and every value before its chosen occurrence
/// occurs strictly less often. If all values are equal the vote is that value.
pub proof fn lemma_majority_is_mode(s: Seq<u64>)
    requires
        s.len() > 0,
    ensures
        s.contains(majority_spec(s)),
        forall|v: u64| #[trigger] count_of(s, v) <= count_of(s, majority_spec(s)),
        exists|k: int|
            0 <= k < s.len() && s[k] == majority_spec(s) && forall|j: int|
                0 <= j < k ==> count_of(s, #[trigger] s[j]) < count_of(s, majority_spec(s)),
        (forall|j: int| 0 <= j < s.len() ==> #[trigger] s[j] == s[0]) ==> majority_spec(s) == s[0],
{
    lemma_vote_is_mode(s);
    let k = vote_index(s, s.len() as int);
    assert(s[k] == majority_spec(s));
}

} // verus!
