//! Deterministic ranking: a strict "sorts before" order per row type and a
//! stable insertion sort pinned down as a mathematical function, so that
//! every ranked listing is reproducible bit for bit.

use vstd::prelude::*;

verus! {

use vstd::multiset::Multiset;

/// A row type with a strict "sorts before" relation used for ranking.
///
/// The relation must be a strict weak order: irreflexive, transitive, and
/// with transitive incomparability, which [`lemma_weak_order`] obliges
/// every implementation to prove.
pub trait RankOrd: Sized {
    /// `a` sorts strictly before `b`.
    spec fn before(a: Self, b: Self) -> bool;

    /// The obligations making `before` a strict weak order.
    proof fn lemma_weak_order(a: Self, b: Self, c: Self)
        ensures
            Self::before(a, b) && Self::before(b, c) ==> Self::before(a, c),
            !Self::before(a, a),
            (!Self::before(a, b) && !Self::before(b, a) && !Self::before(b, c) && !Self::before(
                c,
                b,
            )) ==> !(Self::before(a, c) || Self::before(c, a)),
    ;

    /// Decides the `before` relation.
    fn cmp_before(a: &Self, b: &Self) -> (r: bool)
        ensures
            r == Self::before(*a, *b),
    ;
}

/// No later element sorts strictly before an earlier one.
pub open spec fn sorted_by_rank<T: RankOrd>(s: Seq<T>) -> bool {
    forall|i: int, j: int| 0 <= i < j < s.len() ==> !T::before(s[j], s[i])
}

/// Inserts `x` before the first element it sorts strictly before; equal or
/// incomparable elements keep their place in front of `x`, which makes the
/// sort stable.
pub open spec fn insert_sorted<T: RankOrd>(x: T, s: Seq<T>) -> Seq<T>
    decreases s.len(),
{
    if s.len() == 0 {
        seq![x]
    } else if T::before(x, s[0]) {
        seq![x] + s
    } else {
        seq![s[0]] + insert_sorted(x, s.drop_first())
    }
}

/// Stable insertion sort, defined as a function so that the ranked order
/// of equal inputs is always the same.
pub open spec fn sort_by_rank<T: RankOrd>(s: Seq<T>) -> Seq<T>
    decreases s.len(),
{
    if s.len() == 0 {
        Seq::empty()
    } else {
        insert_sorted(s.last(), sort_by_rank(s.drop_last()))
    }
}

/// Inserting keeps the length.
pub proof fn lemma_insert_sorted_len<T: RankOrd>(x: T, s: Seq<T>)
    ensures
        insert_sorted(x, s).len() == s.len() + 1,
    decreases s.len(),
{
    if s.len() == 0 {
    } else if T::before(x, s[0]) {
    } else {
        lemma_insert_sorted_len(x, s.drop_first());
    }
}

/// Sorting keeps the length.
pub proof fn lemma_sort_by_rank_len<T: RankOrd>(s: Seq<T>)
    ensures
        sort_by_rank(s).len() == s.len(),
    decreases s.len(),
{
    if s.len() == 0 {
    } else {
        lemma_sort_by_rank_len(s.drop_last());
        lemma_insert_sorted_len(s.last(), sort_by_rank(s.drop_last()));
    }
}

/// Inserting keeps the multiset of elements, adding the new one.
pub proof fn lemma_insert_sorted_multiset<T: RankOrd>(x: T, s: Seq<T>)
    ensures
        insert_sorted(x, s).to_multiset() == s.to_multiset().insert(x),
    decreases s.len(),
{
    broadcast use vstd::seq_lib::group_to_multiset_ensures;

    if s.len() == 0 {
        assert(insert_sorted(x, s) =~= s.push(x));
    } else if T::before(x, s[0]) {
        vstd::seq_lib::lemma_multiset_commutative(seq![x], s);
        assert(seq![x].to_multiset() =~= Multiset::empty().insert(x)) by {
            assert(seq![x] =~= Seq::empty().push(x));
        }
        assert(seq![x].to_multiset().add(s.to_multiset()) =~= s.to_multiset().insert(x));
    } else {
        lemma_insert_sorted_multiset(x, s.drop_first());
        let rest = insert_sorted(x, s.drop_first());
        vstd::seq_lib::lemma_multiset_commutative(seq![s[0]], rest);
        vstd::seq_lib::lemma_multiset_commutative(seq![s[0]], s.drop_first());
        assert(seq![s[0]] + s.drop_first() =~= s);
        assert(seq![s[0]].to_multiset() =~= Multiset::empty().insert(s[0])) by {
            assert(seq![s[0]] =~= Seq::empty().push(s[0]));
        }
        assert(seq![s[0]].to_multiset().add(rest.to_multiset()) =~= (seq![s[0]].to_multiset().add(
            s.drop_first().to_multiset(),
        )).insert(x));
    }
}

/// Sorting keeps the multiset of elements: the ranked listing is a
/// permutation of its input.
pub proof fn lemma_sort_by_rank_multiset<T: RankOrd>(s: Seq<T>)
    ensures
        sort_by_rank(s).to_multiset() == s.to_multiset(),
    decreases s.len(),
{
    broadcast use vstd::seq_lib::group_to_multiset_ensures;

    if s.len() == 0 {
        assert(sort_by_rank(s) =~= s);
    } else {
        lemma_sort_by_rank_multiset(s.drop_last());
        lemma_insert_sorted_multiset(s.last(), sort_by_rank(s.drop_last()));
        assert(s =~= s.drop_last().push(s.last()));
        assert(s.drop_last().push(s.last()).to_multiset() == s.drop_last().to_multiset().insert(
            s.last(),
        ));
    }
}

/// Inserting into a sorted sequence keeps it sorted.
pub proof fn lemma_insert_sorted_stays_sorted<T: RankOrd>(x: T, s: Seq<T>)
    requires
        sorted_by_rank(s),
    ensures
        sorted_by_rank(insert_sorted(x, s)),
    decreases s.len(),
{
    let out = insert_sorted(x, s);
    lemma_insert_sorted_len(x, s);
    if s.len() == 0 {
    } else if T::before(x, s[0]) {
        assert forall|i: int, j: int| 0 <= i < j < out.len() implies !T::before(out[j], out[i]) by {
            if i == 0 {
                // out[j] is s[j - 1]; if it sorted before x, transitivity
                // through s[0] would break sortedness or asymmetry.
                if T::before(s[j - 1], x) {
                    T::lemma_weak_order(s[j - 1], x, s[0]);
                    if j - 1 == 0 {
                        T::lemma_weak_order(x, s[0], x);
                        assert(false);
                    } else {
                        assert(T::before(s[j - 1], s[0]));
                        assert(false);
                    }
                }
            } else {
                assert(out[i] == s[i - 1] && out[j] == s[j - 1]);
            }
        }
    } else {
        let rest = insert_sorted(x, s.drop_first());
        assert(sorted_by_rank(s.drop_first())) by {
            assert forall|i: int, j: int| 0 <= i < j < s.drop_first().len() implies !T::before(
                s.drop_first()[j],
                s.drop_first()[i],
            ) by {
                assert(s.drop_first()[i] == s[i + 1]);
                assert(s.drop_first()[j] == s[j + 1]);
            }
        }
        lemma_insert_sorted_stays_sorted(x, s.drop_first());
        lemma_insert_sorted_len(x, s.drop_first());
        // every element of rest is either x or an element of the tail of s
        assert forall|i: int, j: int| 0 <= i < j < out.len() implies !T::before(out[j], out[i]) by {
            if i == 0 {
                assert(out[0] == s[0]);
                // out[j] == rest[j - 1]
                assert(out[j] == rest[j - 1]);
                lemma_insert_sorted_element(x, s.drop_first(), j - 1);
                if T::before(out[j], s[0]) {
                    if out[j] == x {
                        T::lemma_weak_order(x, s[0], x);
                        assert(false);
                    } else {
                        let k = choose|k: int|
                            0 <= k < s.drop_first().len() && s.drop_first()[k] == out[j];
                        assert(s[k + 1] == out[j]);
                        assert(false);
                    }
                }
            } else {
                assert(out[i] == rest[i - 1] && out[j] == rest[j - 1]);
            }
        }
    }
}

/// Every element of an insertion result is the inserted element or one of
/// the original elements.
pub proof fn lemma_insert_sorted_element<T: RankOrd>(x: T, s: Seq<T>, i: int)
    requires
        0 <= i < insert_sorted(x, s).len(),
    ensures
        insert_sorted(x, s)[i] == x || exists|k: int| 0 <= k < s.len() && s[k] == insert_sorted(
            x,
            s,
        )[i],
    decreases s.len(),
{
    lemma_insert_sorted_len(x, s);
    if s.len() == 0 {
    } else if T::before(x, s[0]) {
        if i > 0 {
            assert(insert_sorted(x, s)[i] == s[i - 1]);
        }
    } else {
        if i > 0 {
            lemma_insert_sorted_element(x, s.drop_first(), i - 1);
            let out = insert_sorted(x, s);
            assert(out[i] == insert_sorted(x, s.drop_first())[i - 1]);
            if insert_sorted(x, s.drop_first())[i - 1] != x {
                let k = choose|k: int|
                    0 <= k < s.drop_first().len() && s.drop_first()[k] == insert_sorted(
                        x,
                        s.drop_first(),
                    )[i - 1];
                assert(s[k + 1] == out[i]);
            }
        }
    }
}

/// The ranked listing is sorted.
pub proof fn lemma_sort_by_rank_sorted<T: RankOrd>(s: Seq<T>)
    ensures
        sorted_by_rank(sort_by_rank(s)),
    decreases s.len(),
{
    if s.len() == 0 {
    } else {
        lemma_sort_by_rank_sorted(s.drop_last());
        lemma_insert_sorted_stays_sorted(s.last(), sort_by_rank(s.drop_last()));
    }
}

/// When no two rows tie, the ranked listing is strictly ordered: each row
/// sorts strictly before the next.
pub proof fn lemma_sort_by_rank_strict<T: RankOrd>(s: Seq<T>)
    requires
        forall|i: int, j: int|
            0 <= i < j < s.len() ==> (T::before(#[trigger] s[i], #[trigger] s[j]) || T::before(
                s[j],
                s[i],
            )),
    ensures
        forall|i: int, j: int|
            0 <= i < j < sort_by_rank(s).len() ==> T::before(
                #[trigger] sort_by_rank(s)[i],
                #[trigger] sort_by_rank(s)[j],
            ),
{
    broadcast use vstd::seq_lib::group_to_multiset_ensures;

    let out = sort_by_rank(s);
    lemma_sort_by_rank_sorted(s);
    lemma_sort_by_rank_multiset(s);
    lemma_sort_by_rank_len(s);
    assert(s.no_duplicates()) by {
        assert forall|i: int, j: int|
            0 <= i < s.len() && 0 <= j < s.len() && i != j implies s[i] != s[j] by {
            if s[i] == s[j] {
                T::lemma_weak_order(s[i], s[i], s[i]);
            }
        }
    }
    s.lemma_multiset_has_no_duplicates();
    assert forall|x: T| out.to_multiset().contains(x) implies out.to_multiset().count(x) == 1 by {
        assert(s.to_multiset().contains(x));
    }
    out.lemma_multiset_has_no_duplicates_conv();
    assert forall|i: int, j: int| 0 <= i < j < out.len() implies T::before(
        #[trigger] out[i],
        #[trigger] out[j],
    ) by {
        assert(out[i] != out[j]);
        assert(out.to_multiset().contains(out[i])) by {
            assert(out.to_multiset().count(out[i]) > 0);
        }
        assert(out.to_multiset().contains(out[j])) by {
            assert(out.to_multiset().count(out[j]) > 0);
        }
        assert(s.contains(out[i]));
        assert(s.contains(out[j]));
        let a = choose|a: int| 0 <= a < s.len() && s[a] == out[i];
        let b = choose|b: int| 0 <= b < s.len() && s[b] == out[j];
        assert(a != b);
        assert(T::before(s[a], s[b]) || T::before(s[b], s[a]));
        assert(!T::before(out[j], out[i]));
    }
}

/// Characterizes where an insertion lands: given the first index whose
/// element `x` sorts before, the result is the input with `x` placed
/// there.
proof fn lemma_insert_sorted_at<T: RankOrd>(x: T, s: Seq<T>, idx: int)
    requires
        0 <= idx <= s.len(),
        forall|k: int| 0 <= k < idx ==> !T::before(x, s[k]),
        idx < s.len() ==> T::before(x, s[idx]),
    ensures
        insert_sorted(x, s) == s.subrange(0, idx) + seq![x] + s.subrange(idx, s.len() as int),
    decreases s.len(),
{
    if s.len() == 0 {
        assert(insert_sorted(x, s) =~= s.subrange(0, 0) + seq![x] + s.subrange(0, 0));
    } else if idx == 0 {
        assert(insert_sorted(x, s) =~= s.subrange(0, 0) + seq![x] + s.subrange(0, s.len() as int));
    } else {
        let t = s.drop_first();
        assert(forall|k: int| 0 <= k < idx - 1 ==> !T::before(x, #[trigger] t[k]));
        lemma_insert_sorted_at(x, t, idx - 1);
        assert(insert_sorted(x, s) == seq![s[0]] + insert_sorted(x, t));
        assert(seq![s[0]] + (t.subrange(0, idx - 1) + seq![x] + t.subrange(idx - 1, t.len() as int))
            =~= s.subrange(0, idx) + seq![x] + s.subrange(idx, s.len() as int));
    }
}

/// Inserts `x` into an already ranked vector at its stable position.
fn insert_ranked<T: RankOrd>(v: &mut Vec<T>, x: T)
    ensures
        final(v)@ == insert_sorted(x, old(v)@),
{
    let n = v.len();
    let mut idx: usize = 0;
    while idx < n && !T::cmp_before(&x, &v[idx])
        invariant
            n == v@.len(),
            idx <= n,
            forall|k: int| 0 <= k < idx ==> !T::before(x, v@[k]),
        decreases n - idx,
    {
        idx = idx + 1;
    }
    proof {
        lemma_insert_sorted_at(x, v@, idx as int);
    }
    v.insert(idx, x);
    proof {
        assert(final(v)@ =~= old(v)@.subrange(0, idx as int) + seq![x] + old(v)@.subrange(
            idx as int,
            old(v)@.len() as int,
        ));
    }
}

/// Ranks the rows: a stable insertion sort whose result is the fixed
/// mathematical ordering [`sort_by_rank`] of its input.
pub fn rank_rows<T: RankOrd>(rows: Vec<T>) -> (r: Vec<T>)
    ensures
        r@ == sort_by_rank(rows@),
{
    let mut input = rows;
    let total = input.len();
    let mut out: Vec<T> = Vec::new();
    let ghost orig = input@;
    let mut i: usize = 0;
    proof {
        assert(orig.subrange(0, 0) =~= Seq::<T>::empty());
    }
    while input.len() > 0
        invariant
            orig.len() == total,
            i <= orig.len(),
            input@ == orig.subrange(i as int, orig.len() as int),
            out@ == sort_by_rank(orig.subrange(0, i as int)),
        decreases input@.len(),
    {
        let x = input.remove(0);
        proof {
            assert(x == orig[i as int]);
            assert(input@ =~= orig.subrange(i + 1, orig.len() as int));
        }
        insert_ranked(&mut out, x);
        proof {
            let pre = orig.subrange(0, i as int);
            let post = orig.subrange(0, i + 1);
            assert(post.drop_last() =~= pre);
            assert(post.last() == orig[i as int]);
        }
        i = i + 1;
    }
    proof {
        assert(orig.subrange(0, orig.len() as int) =~= orig);
        assert(i == orig.len());
    }
    out
}

/// Truncates a ranked listing to the page bound: the first `limit` rows.
pub fn limit_rows<T>(rows: &mut Vec<T>, limit: usize)
    ensures
        final(rows)@ == old(rows)@.take(vstd::math::min(limit as int, old(rows)@.len() as int)),
{
    if rows.len() > limit {
        rows.truncate(limit);
        proof {
            assert(final(rows)@ =~= old(rows)@.take(limit as int));
        }
    } else {
        proof {
            assert(final(rows)@ =~= old(rows)@.take(old(rows)@.len() as int));
        }
    }
}


/// Insertion into a ranked sequence of view values, under a given strict
/// order.
pub open spec fn insert_by<V>(x: V, s: Seq<V>, lt: spec_fn(V, V) -> bool) -> Seq<V>
    decreases s.len(),
{
    if s.len() == 0 {
        seq![x]
    } else if lt(x, s[0]) {
        seq![x] + s
    } else {
        seq![s[0]] + insert_by(x, s.drop_first(), lt)
    }
}

/// Insertion sort of view values, under a given strict order.
pub open spec fn sort_by<V>(s: Seq<V>, lt: spec_fn(V, V) -> bool) -> Seq<V>
    decreases s.len(),
{
    if s.len() == 0 {
        Seq::empty()
    } else {
        insert_by(s.last(), sort_by(s.drop_last(), lt), lt)
    }
}

/// Inserting and then viewing is viewing and then inserting, when the
/// view respects the order.
proof fn lemma_insert_view_bridge<T: RankOrd, V>(
    x: T,
    s: Seq<T>,
    f: spec_fn(T) -> V,
    lt: spec_fn(V, V) -> bool,
)
    requires
        forall|a: T, b: T| #[trigger] T::before(a, b) == lt(f(a), f(b)),
    ensures
        insert_sorted(x, s).map_values(f) == insert_by(f(x), s.map_values(f), lt),
    decreases s.len(),
{
    broadcast use Seq::lemma_push_map_commute;

    if s.len() == 0 {
        assert(insert_sorted(x, s).map_values(f) =~= insert_by(f(x), s.map_values(f), lt));
    } else {
        assert(s.map_values(f)[0] == f(s[0]));
        if T::before(x, s[0]) {
            assert((seq![x] + s).map_values(f) =~= seq![f(x)] + s.map_values(f));
        } else {
            lemma_insert_view_bridge(x, s.drop_first(), f, lt);
            assert(s.drop_first().map_values(f) =~= s.map_values(f).drop_first());
            assert((seq![s[0]] + insert_sorted(x, s.drop_first())).map_values(f) =~= seq![f(s[0])]
                + insert_sorted(x, s.drop_first()).map_values(f));
            assert(insert_by(f(x), s.map_values(f), lt) == seq![s.map_values(f)[0]] + insert_by(
                f(x),
                s.map_values(f).drop_first(),
                lt,
            ));
        }
    }
}

/// Sorting and then viewing is viewing and then sorting, when the view
/// respects the order.
pub proof fn lemma_sort_view_bridge<T: RankOrd, V>(
    s: Seq<T>,
    f: spec_fn(T) -> V,
    lt: spec_fn(V, V) -> bool,
)
    requires
        forall|a: T, b: T| #[trigger] T::before(a, b) == lt(f(a), f(b)),
    ensures
        sort_by_rank(s).map_values(f) == sort_by(s.map_values(f), lt),
    decreases s.len(),
{
    if s.len() == 0 {
        assert(sort_by_rank(s).map_values(f) =~= sort_by(s.map_values(f), lt));
    } else {
        lemma_sort_view_bridge(s.drop_last(), f, lt);
        lemma_insert_view_bridge(s.last(), sort_by_rank(s.drop_last()), f, lt);
        assert(s.drop_last().map_values(f) =~= s.map_values(f).drop_last());
        assert(f(s.last()) == s.map_values(f).last());
    }
}


/// Every element of a view-level insertion result is the inserted value
/// or one of the original values.
pub proof fn lemma_insert_by_element<V>(x: V, s: Seq<V>, lt: spec_fn(V, V) -> bool, i: int)
    requires
        0 <= i < insert_by(x, s, lt).len(),
    ensures
        insert_by(x, s, lt)[i] == x || s.contains(insert_by(x, s, lt)[i]),
    decreases s.len(),
{
    if s.len() == 0 {
    } else if lt(x, s[0]) {
        if i > 0 {
            assert(insert_by(x, s, lt)[i] == s[i - 1]);
        }
    } else {
        if i > 0 {
            lemma_insert_by_element(x, s.drop_first(), lt, i - 1);
            let out = insert_by(x, s, lt);
            assert(out[i] == insert_by(x, s.drop_first(), lt)[i - 1]);
            if insert_by(x, s.drop_first(), lt)[i - 1] != x {
                let k = choose|k: int|
                    0 <= k < s.drop_first().len() && s.drop_first()[k] == insert_by(
                        x,
                        s.drop_first(),
                        lt,
                    )[i - 1];
                assert(s[k + 1] == out[i]);
            }
        } else {
            assert(insert_by(x, s, lt)[0] == s[0]);
        }
    }
}

/// Every element of a view-level sort result is one of the input values.
pub proof fn lemma_sort_by_element<V>(s: Seq<V>, lt: spec_fn(V, V) -> bool, i: int)
    requires
        0 <= i < sort_by(s, lt).len(),
    ensures
        s.contains(sort_by(s, lt)[i]),
    decreases s.len(),
{
    if s.len() == 0 {
    } else {
        let prev = sort_by(s.drop_last(), lt);
        lemma_insert_by_element(s.last(), prev, lt, i);
        if sort_by(s, lt)[i] == s.last() {
            assert(s[s.len() - 1] == s.last());
        } else {
            let k = choose|k: int| 0 <= k < prev.len() && prev[k] == sort_by(s, lt)[i];
            lemma_sort_by_element(s.drop_last(), lt, k);
            let j = choose|j: int| 0 <= j < s.drop_last().len() && s.drop_last()[j] == sort_by(s, lt)[i];
            assert(s[j] == sort_by(s, lt)[i]);
        }
    }
}

} // verus!
