//! Top-k frequency ranking: the k most frequent values of a column within
//! a group, sorted by descending count and then ascending value, so that
//! ties break the same way on every run.

use vstd::prelude::*;

verus! {

use crate::aggregate::{
    count_of,
    dedup_first,
    lemma_count_of_positive,
    lemma_count_of_push,
    lemma_dedup_first_contains,
    lemma_dedup_first_no_duplicates,
    str_views,
};
use crate::rank::{RankOrd, insert_sorted, limit_rows, rank_rows, sort_by_rank};
broadcast use Seq::lemma_push_map_commute;

use crate::text::{
    lemma_seq_char_connected,
    lemma_seq_char_lt_irrefl,
    lemma_seq_char_lt_trans,
    seq_char_lt,
    str_lt,
};

/// A distinct value of the ranked column together with how often it
/// occurs.
pub ghost struct CountEntry {
    /// The value.
    pub value: Seq<char>,
    /// The number of occurrences.
    pub count: int,
}

/// Ranking order of count entries: greater counts first, then lesser
/// values first.
pub open spec fn ce_before(a: CountEntry, b: CountEntry) -> bool {
    a.count > b.count || (a.count == b.count && seq_char_lt(a.value, b.value))
}

/// Inserts an entry before the first entry it ranks strictly above.
pub open spec fn insert_ce(x: CountEntry, s: Seq<CountEntry>) -> Seq<CountEntry>
    decreases s.len(),
{
    if s.len() == 0 {
        seq![x]
    } else if ce_before(x, s[0]) {
        seq![x] + s
    } else {
        seq![s[0]] + insert_ce(x, s.drop_first())
    }
}

/// Insertion sort of count entries, a fixed mathematical ordering.
pub open spec fn sort_ce(s: Seq<CountEntry>) -> Seq<CountEntry>
    decreases s.len(),
{
    if s.len() == 0 {
        Seq::empty()
    } else {
        insert_ce(s.last(), sort_ce(s.drop_last()))
    }
}

/// The distinct values of the column with their occurrence counts, in
/// first-seen order.
pub open spec fn spec_value_counts(vals: Seq<Seq<char>>) -> Seq<CountEntry> {
    dedup_first(vals).map_values(
        |v: Seq<char>| CountEntry { value: v, count: count_of(vals, v) },
    )
}

/// The first `k` values of the ranked value counts: the k most frequent
/// values, greater counts first, ties broken by ascending value.
pub open spec fn spec_top_k(vals: Seq<Seq<char>>, k: int) -> Seq<Seq<char>> {
    let sorted = sort_ce(spec_value_counts(vals));
    let n = if k < sorted.len() {
        k
    } else {
        sorted.len() as int
    };
    sorted.take(n).map_values(|e: CountEntry| e.value)
}

/// A distinct value with its occurrence count, as the executable ranking
/// handles it.
pub struct CountPair {
    /// The value.
    pub value: String,
    /// The number of occurrences.
    pub count: usize,
}

/// The mathematical content of a [`CountPair`].
pub open spec fn cp_view(p: CountPair) -> CountEntry {
    CountEntry { value: p.value@, count: p.count as int }
}

/// The views of a sequence of count pairs.
pub open spec fn cp_views(s: Seq<CountPair>) -> Seq<CountEntry> {
    s.map_values(|p: CountPair| cp_view(p))
}

impl RankOrd for CountPair {
    open spec fn before(a: CountPair, b: CountPair) -> bool {
        ce_before(cp_view(a), cp_view(b))
    }

    proof fn lemma_weak_order(a: CountPair, b: CountPair, c: CountPair) {
        lemma_seq_char_lt_trans(a.value@, b.value@, c.value@);
        lemma_seq_char_lt_irrefl(a.value@);
        lemma_seq_char_connected(a.value@, b.value@);
        lemma_seq_char_connected(b.value@, c.value@);
        lemma_seq_char_connected(a.value@, c.value@);
    }

    fn cmp_before(a: &CountPair, b: &CountPair) -> (r: bool) {
        if a.count != b.count {
            a.count > b.count
        } else {
            str_lt(a.value.as_str(), b.value.as_str())
        }
    }
}

/// Executable insertion matches the ghost insertion, entry by entry.
proof fn lemma_insert_bridge(x: CountPair, s: Seq<CountPair>)
    ensures
        cp_views(insert_sorted(x, s)) == insert_ce(cp_view(x), cp_views(s)),
    decreases s.len(),
{
    if s.len() == 0 {
        assert(cp_views(insert_sorted(x, s)) =~= insert_ce(cp_view(x), cp_views(s)));
    } else {
        assert(cp_views(s)[0] == cp_view(s[0]));
        if CountPair::before(x, s[0]) {
            assert(cp_views(seq![x] + s) =~= seq![cp_view(x)] + cp_views(s));
        } else {
            lemma_insert_bridge(x, s.drop_first());
            assert(cp_views(s.drop_first()) =~= cp_views(s).drop_first());
            assert(cp_views(seq![s[0]] + insert_sorted(x, s.drop_first())) =~= seq![cp_view(s[0])]
                + cp_views(insert_sorted(x, s.drop_first())));
            assert(insert_ce(cp_view(x), cp_views(s)) == seq![cp_views(s)[0]] + insert_ce(
                cp_view(x),
                cp_views(s).drop_first(),
            ));
        }
    }
}

/// Executable sorting matches the ghost sorting, entry by entry.
pub(crate) proof fn lemma_sort_bridge(s: Seq<CountPair>)
    ensures
        cp_views(sort_by_rank(s)) == sort_ce(cp_views(s)),
    decreases s.len(),
{
    if s.len() == 0 {
        assert(cp_views(sort_by_rank(s)) =~= sort_ce(cp_views(s)));
    } else {
        lemma_sort_bridge(s.drop_last());
        lemma_insert_bridge(s.last(), sort_by_rank(s.drop_last()));
        assert(cp_views(s.drop_last()) =~= cp_views(s).drop_last());
        assert(cp_view(s.last()) == cp_views(s).last());
    }
}

/// Every entry of an insertion result is the inserted entry or one of the
/// original entries.
proof fn lemma_insert_ce_element(x: CountEntry, s: Seq<CountEntry>, i: int)
    requires
        0 <= i < insert_ce(x, s).len(),
    ensures
        insert_ce(x, s)[i] == x || s.contains(insert_ce(x, s)[i]),
    decreases s.len(),
{
    if s.len() == 0 {
    } else if ce_before(x, s[0]) {
        if i > 0 {
            assert(insert_ce(x, s)[i] == s[i - 1]);
        }
    } else {
        if i > 0 {
            lemma_insert_ce_element(x, s.drop_first(), i - 1);
            let out = insert_ce(x, s);
            assert(out[i] == insert_ce(x, s.drop_first())[i - 1]);
            if insert_ce(x, s.drop_first())[i - 1] != x {
                let k = choose|k: int|
                    0 <= k < s.drop_first().len() && s.drop_first()[k] == insert_ce(
                        x,
                        s.drop_first(),
                    )[i - 1];
                assert(s[k + 1] == out[i]);
            }
        } else {
            assert(insert_ce(x, s)[0] == s[0]);
        }
    }
}

/// Every entry of the ghost sort result is one of the input entries.
pub(crate) proof fn lemma_sort_ce_element(s: Seq<CountEntry>, i: int)
    requires
        0 <= i < sort_ce(s).len(),
    ensures
        s.contains(sort_ce(s)[i]),
    decreases s.len(),
{
    if s.len() == 0 {
    } else {
        let prev = sort_ce(s.drop_last());
        lemma_insert_ce_element(s.last(), prev, i);
        if sort_ce(s)[i] == s.last() {
            assert(s[s.len() - 1] == s.last());
        } else {
            let k = choose|k: int| 0 <= k < prev.len() && prev[k] == sort_ce(s)[i];
            lemma_sort_ce_element(s.drop_last(), k);
            let j = choose|j: int|
                0 <= j < s.drop_last().len() && s.drop_last()[j] == sort_ce(s)[i];
            assert(s[j] == sort_ce(s)[i]);
        }
    }
}

/// Every entry of the ranked value counts counts an occurring value: its
/// count is positive and no greater than the number of values.
pub proof fn lemma_sort_ce_counts_bound(vals: Seq<Seq<char>>)
    ensures
        forall|i: int|
            0 <= i < sort_ce(spec_value_counts(vals)).len() ==> 0 < (
            #[trigger] sort_ce(spec_value_counts(vals))[i]).count <= vals.len(),
{
    let vc = spec_value_counts(vals);
    let sorted = sort_ce(vc);
    assert forall|i: int| 0 <= i < sorted.len() implies 0 < (#[trigger] sorted[i]).count
        <= vals.len() by {
        lemma_sort_ce_element(vc, i);
        let j = choose|j: int| 0 <= j < vc.len() && vc[j] == sorted[i];
        let v = dedup_first(vals)[j];
        assert(vc[j] == CountEntry { value: v, count: count_of(vals, v) });
        assert(dedup_first(vals).contains(v));
        lemma_dedup_first_contains(vals, v);
        lemma_count_of_positive(vals, v);
        assert(count_of(vals, v) <= vals.len()) by {
            broadcast use vstd::seq_lib::group_filter_ensures;

        }
    }
}

/// The top-k listing never holds more than `k` values, and never a value
/// with zero occurrences in the column it ranks.
pub proof fn lemma_top_k_sound(vals: Seq<Seq<char>>, k: int)
    requires
        k >= 0,
    ensures
        spec_top_k(vals, k).len() <= k,
        forall|i: int|
            0 <= i < spec_top_k(vals, k).len() ==> count_of(vals, #[trigger] spec_top_k(vals, k)[i])
                > 0,
{
    let vc = spec_value_counts(vals);
    let sorted = sort_ce(vc);
    let out = spec_top_k(vals, k);
    let n = if k < sorted.len() {
        k
    } else {
        sorted.len() as int
    };
    assert forall|i: int| 0 <= i < out.len() implies count_of(vals, #[trigger] out[i]) > 0 by {
        assert(out[i] == sorted.take(n).map_values(|e: CountEntry| e.value)[i]);
        assert(sorted.take(n)[i] == sorted[i]);
        assert(out[i] == sorted[i].value);
        lemma_sort_ce_element(vc, i);
        let j = choose|j: int| 0 <= j < vc.len() && vc[j] == sorted[i];
        let v = dedup_first(vals)[j];
        assert(vc[j] == CountEntry { value: v, count: count_of(vals, v) });
        assert(dedup_first(vals).contains(v));
        lemma_dedup_first_contains(vals, v);
        lemma_count_of_positive(vals, v);
    }
}

/// Counts how often `x` occurs among the values.
fn count_occurrences(values: &Vec<String>, x: &String) -> (c: usize)
    ensures
        c == count_of(str_views(values@), x@),
{
    let vals = values;
    let n = vals.len();
    let mut c: usize = 0;
    let mut i: usize = 0;
    proof {
        assert(str_views(values@).take(0) =~= Seq::<Seq<char>>::empty());
    }
    while i < n
        invariant
            n == values@.len(),
            i <= n,
            c <= i,
            c == count_of(str_views(values@).take(i as int), x@),
        decreases n - i,
    {
        let ghost vv = str_views(values@);
        proof {
            assert(vv.take(i + 1) =~= vv.take(i as int).push(values@[i as int]@));
            lemma_count_of_push(vv.take(i as int), x@, values@[i as int]@);
        }
        if values[i].eq(x) {
            c = c + 1;
        }
        i = i + 1;
    }
    proof {
        assert(str_views(values@).take(n as int) =~= str_views(values@));
    }
    c
}

/// The distinct values, each at its first occurrence, in first-seen
/// order.
pub(crate) fn distinct_values(values: &Vec<String>) -> (r: Vec<String>)
    ensures
        str_views(r@) == dedup_first(str_views(values@)),
{
    let n = values.len();
    let mut out: Vec<String> = Vec::new();
    let mut i: usize = 0;
    proof {
        assert(str_views(values@).take(0) =~= Seq::<Seq<char>>::empty());
        assert(str_views(out@) =~= dedup_first(str_views(values@).take(0)));
    }
    while i < n
        invariant
            n == values@.len(),
            i <= n,
            str_views(out@) == dedup_first(str_views(values@).take(i as int)),
        decreases n - i,
    {
        let ghost vv = str_views(values@);
        let v = &values[i];
        let mut seen = false;
        let m = out.len();
        let mut j: usize = 0;
        while j < m
            invariant
                m == out@.len(),
                j <= m,
                seen <==> exists|t: int| 0 <= t < j && out@[t]@ == v@,
                v == values@[i as int],
                i < n,
                n == values@.len(),
            decreases m - j,
        {
            if out[j].eq(v) {
                seen = true;
            }
            j = j + 1;
        }
        let ghost d0 = dedup_first(vv.take(i as int));
        proof {
            assert(vv.take(i + 1) =~= vv.take(i as int).push(v@));
            assert(vv.take(i + 1).drop_last() =~= vv.take(i as int));
            assert(vv.take(i + 1).last() == v@);
            if seen {
                let t = choose|t: int| 0 <= t < out@.len() && out@[t]@ == v@;
                assert(str_views(out@)[t] == out@[t]@);
                assert(d0.contains(v@));
            } else {
                if d0.contains(v@) {
                    let t = choose|t: int|
                        0 <= t < str_views(out@).len() && str_views(out@)[t] == v@;
                    assert(out@[t]@ == v@);
                    assert(false);
                }
            }
            assert(dedup_first(vv.take(i + 1)) == (if d0.contains(v@) {
                d0
            } else {
                d0.push(v@)
            }));
        }
        if !seen {
            let ghost prev = out@;
            out.push(v.clone());
            proof {
                let lhs = str_views(out@);
                let rhs = str_views(prev).push(v@);
                assert forall|u: int| 0 <= u < lhs.len() implies lhs[u] == rhs[u] by {
                    assert(lhs[u] == out@[u]@);
                    if u < prev.len() {
                        assert(out@[u] == prev[u]);
                        assert(str_views(prev)[u] == prev[u]@);
                    } else {
                        assert(out@[u]@ == v@);
                    }
                }
                assert(lhs =~= rhs);
            }
        }
        i = i + 1;
    }
    proof {
        assert(str_views(values@).take(n as int) =~= str_views(values@));
    }
    out
}

/// Distinct values give pairwise comparable count pairs: no two rows of
/// the value-count table tie under the ranking order.
pub(crate) proof fn lemma_value_counts_comparable(pairs: Seq<CountPair>, vals: Seq<Seq<char>>)
    requires
        cp_views(pairs) == spec_value_counts(vals),
    ensures
        forall|i: int, j: int|
            0 <= i < j < pairs.len() ==> (CountPair::before(#[trigger] pairs[i], #[trigger] pairs[j])
                || CountPair::before(pairs[j], pairs[i])),
{
    lemma_dedup_first_no_duplicates(vals);
    let d = dedup_first(vals);
    assert forall|i: int, j: int| 0 <= i < j < pairs.len() implies (CountPair::before(
        #[trigger] pairs[i],
        #[trigger] pairs[j],
    ) || CountPair::before(pairs[j], pairs[i])) by {
        assert(cp_views(pairs).len() == pairs.len());
        assert(cp_views(pairs)[i] == cp_view(pairs[i]));
        assert(cp_views(pairs)[j] == cp_view(pairs[j]));
        assert(spec_value_counts(vals)[i] == CountEntry { value: d[i], count: count_of(vals, d[i]) });
        assert(spec_value_counts(vals)[j] == CountEntry { value: d[j], count: count_of(vals, d[j]) });
        assert(pairs[i].value@ == d[i]);
        assert(pairs[j].value@ == d[j]);
        assert(d[i] != d[j]);
        lemma_seq_char_connected(pairs[i].value@, pairs[j].value@);
    }
}

/// The distinct values with their occurrence counts, in first-seen order.
pub(crate) fn value_count_pairs(values: &Vec<String>) -> (r: Vec<CountPair>)
    ensures
        cp_views(r@) == spec_value_counts(str_views(values@)),
{
    let distinct = distinct_values(values);
    let ghost vc = spec_value_counts(str_views(values@));
    let mut pairs: Vec<CountPair> = Vec::new();
    let dn = distinct.len();
    let mut j: usize = 0;
    proof {
        assert(cp_views(pairs@) =~= vc.take(0));
    }
    while j < dn
        invariant
            dn == distinct@.len(),
            j <= dn,
            str_views(distinct@) == dedup_first(str_views(values@)),
            vc == spec_value_counts(str_views(values@)),
            cp_views(pairs@) == vc.take(j as int),
        decreases dn - j,
    {
        let c = count_occurrences(values, &distinct[j]);
        let ghost prev = pairs@;
        pairs.push(CountPair { value: distinct[j].clone(), count: c });
        proof {
            let lhs = cp_views(pairs@);
            let rhs = vc.take(j + 1);
            assert(str_views(distinct@)[j as int] == distinct@[j as int]@);
            assert(vc[j as int] == CountEntry {
                value: distinct@[j as int]@,
                count: count_of(str_views(values@), distinct@[j as int]@),
            });
            assert(pairs@ == prev.push(CountPair { value: distinct@[j as int], count: c }));
            assert forall|u: int| 0 <= u < lhs.len() implies lhs[u] == rhs[u] by {
                assert(lhs[u] == cp_view(pairs@[u]));
                if u < prev.len() {
                    assert(pairs@[u] == prev[u]);
                    assert(cp_views(prev)[u] == cp_view(prev[u]));
                    assert(cp_views(prev)[u] == vc.take(j as int)[u]);
                } else {
                    assert(cp_view(pairs@[u]) == vc[j as int]);
                }
            }
            assert(lhs =~= rhs);
        }
        j = j + 1;
    }
    proof {
        assert(vc.take(dn as int) =~= vc);
    }
    pairs
}

/// The `k` most frequent values among the given ones: value counts are
/// ranked by descending count, ties broken by ascending value, and the
/// first `k` values are returned. Never more than `k` values, and never a
/// value that does not occur.
pub fn top_k_frequency(values: &Vec<String>, k: usize) -> (r: Vec<String>)
    ensures
        str_views(r@) == spec_top_k(str_views(values@), k as int),
        r@.len() <= k,
        forall|i: int|
            0 <= i < r@.len() ==> count_of(str_views(values@), #[trigger] r@[i]@) > 0,
{
    let ghost vals_v = str_views(values@);
    let ghost vc = spec_value_counts(vals_v);
    let pairs = value_count_pairs(values);
    let ghost pairs_v = pairs@;
    let mut ranked = rank_rows(pairs);
    proof {
        lemma_sort_bridge(pairs_v);
    }
    limit_rows(&mut ranked, k);
    let ghost sorted = sort_ce(vc);
    proof {
        assert(cp_views(ranked@) =~= sorted.take(
            vstd::math::min(k as int, sorted.len() as int),
        )) by {
            assert(cp_views(sort_by_rank(pairs_v)).len() == sort_by_rank(pairs_v).len());
            assert forall|t: int| 0 <= t < ranked@.len() implies cp_views(ranked@)[t]
                == sorted.take(vstd::math::min(k as int, sorted.len() as int))[t] by {
                assert(ranked@[t] == sort_by_rank(pairs_v)[t]);
                assert(cp_views(sort_by_rank(pairs_v))[t] == cp_view(sort_by_rank(pairs_v)[t]));
            }
        }
    }
    let mut out: Vec<String> = Vec::new();
    let mut input = ranked;
    let ghost rv = cp_views(input@);
    let total = input.len();
    let mut t: usize = 0;
    proof {
        assert(str_views(out@) =~= rv.take(0).map_values(|e: CountEntry| e.value));
        assert(cp_views(input@) =~= rv.subrange(0, rv.len() as int));
    }
    while input.len() > 0
        invariant
            t <= total,
            total == rv.len(),
            cp_views(input@) == rv.subrange(t as int, rv.len() as int),
            str_views(out@) == rv.take(t as int).map_values(|e: CountEntry| e.value),
        decreases input@.len(),
    {
        let ghost old_input = input@;
        let p = input.remove(0);
        proof {
            assert(p == old_input[0]);
            assert(cp_views(old_input) == rv.subrange(t as int, rv.len() as int));
            assert(cp_views(old_input).len() == old_input.len());
            assert(old_input.len() > 0);
            assert(t < rv.len());
            assert(rv.subrange(t as int, rv.len() as int)[0] == rv[t as int]);
            assert(cp_views(old_input)[0] == cp_view(old_input[0]));
            assert(cp_view(p) == rv[t as int]);
            assert(input@ =~= old_input.subrange(1, old_input.len() as int));
            assert forall|u: int| 0 <= u < input@.len() implies cp_views(input@)[u] == rv.subrange(
                t + 1,
                rv.len() as int,
            )[u] by {
                assert(input@[u] == old_input[u + 1]);
                assert(cp_views(input@)[u] == cp_view(input@[u]));
                assert(cp_views(old_input)[u + 1] == cp_view(old_input[u + 1]));
                assert(rv.subrange(t as int, rv.len() as int)[u + 1] == rv[t + 1 + u]);
                assert(rv.subrange(t + 1, rv.len() as int)[u] == rv[t + 1 + u]);
            }
            assert(cp_views(input@) =~= rv.subrange(t + 1, rv.len() as int));
        }
        let ghost prev_out = out@;
        out.push(p.value);
        proof {
            assert(rv.take(t + 1).drop_last() =~= rv.take(t as int));
            assert(str_views(out@) =~= rv.take(t + 1).map_values(|e: CountEntry| e.value));
        }
        t = t + 1;
    }
    proof {
        assert(rv.take(rv.len() as int) =~= rv);
        let n_take = vstd::math::min(k as int, sorted.len() as int);
        assert(str_views(out@) =~= sorted.take(n_take).map_values(|e: CountEntry| e.value));
        assert(str_views(out@) =~= spec_top_k(vals_v, k as int));
        lemma_top_k_sound(vals_v, k as int);
        assert forall|i: int| 0 <= i < out@.len() implies count_of(vals_v, #[trigger] out@[i]@)
            > 0 by {
            assert(str_views(out@)[i] == out@[i]@);
            assert(spec_top_k(vals_v, k as int)[i] == out@[i]@);
        }
    }
    out
}

} // verus!
