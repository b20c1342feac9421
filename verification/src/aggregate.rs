//! Grouped aggregation primitives: distinct grouping keys in first-seen
//! order, group counts, timestamp extrema, and the "last" value — the one
//! from the row with the greatest timestamp, later scan order winning
//! ties.
//!
//! The specifications work on ghost groups: the sub-sequence of rows whose
//! key matches, never materialized by the executable code.

use vstd::prelude::*;

verus! {

use crate::datetime::{DateTime, dt_le, dt_lt};

/// The distinct elements of a sequence, each at its first occurrence, in
/// order of first occurrence.
pub open spec fn dedup_first<A>(s: Seq<A>) -> Seq<A>
    decreases s.len(),
{
    if s.len() == 0 {
        Seq::empty()
    } else {
        let prev = dedup_first(s.drop_last());
        if prev.contains(s.last()) {
            prev
        } else {
            prev.push(s.last())
        }
    }
}

/// An element is in the deduplicated sequence exactly when it is in the
/// original.
pub proof fn lemma_dedup_first_contains<A>(s: Seq<A>, x: A)
    ensures
        dedup_first(s).contains(x) <==> s.contains(x),
    decreases s.len(),
{
    if s.len() == 0 {
    } else {
        lemma_dedup_first_contains(s.drop_last(), x);
        let prev = dedup_first(s.drop_last());
        let d = dedup_first(s);
        if d.contains(x) {
            if prev.contains(x) {
                assert(s.drop_last().contains(x));
                let i = choose|i: int| 0 <= i < s.drop_last().len() && s.drop_last()[i] == x;
                assert(s[i] == x);
            } else {
                let i = choose|i: int| 0 <= i < d.len() && d[i] == x;
                if i < prev.len() {
                    assert(prev[i] == x);
                } else {
                    assert(x == s.last());
                    assert(s[s.len() - 1] == x);
                }
            }
            assert(s.contains(x));
        }
        if s.contains(x) {
            let i = choose|i: int| 0 <= i < s.len() && s[i] == x;
            if i < s.len() - 1 {
                assert(s.drop_last()[i] == x);
                assert(s.drop_last().contains(x));
                assert(prev.contains(x));
                if !prev.contains(s.last()) {
                    let j = choose|j: int| 0 <= j < prev.len() && prev[j] == x;
                    assert(d[j] == x);
                }
                assert(d.contains(x));
            } else {
                assert(x == s.last());
                if prev.contains(x) {
                    assert(d == prev);
                } else {
                    assert(d[prev.len() as int] == x);
                }
                assert(d.contains(x));
            }
        }
    }
}

/// The deduplicated sequence holds no element twice.
pub proof fn lemma_dedup_first_no_duplicates<A>(s: Seq<A>)
    ensures
        dedup_first(s).no_duplicates(),
    decreases s.len(),
{
    if s.len() == 0 {
    } else {
        lemma_dedup_first_no_duplicates(s.drop_last());
    }
}

/// The number of occurrences of `x` in `s`.
pub open spec fn count_of<A>(s: Seq<A>, x: A) -> int {
    s.filter(|y: A| y == x).len() as int
}

/// Appending one element raises the count of that element by one and
/// leaves other counts unchanged.
pub proof fn lemma_count_of_push<A>(s: Seq<A>, x: A, y: A)
    ensures
        count_of(s.push(y), x) == count_of(s, x) + (if y == x {
            1int
        } else {
            0int
        }),
{
    reveal(Seq::filter);
    let t = s.push(y);
    assert(t.drop_last() =~= s);
    assert(t.last() == y);
}

/// An element that occurs, occurs a positive number of times.
pub proof fn lemma_count_of_positive<A>(s: Seq<A>, x: A)
    requires
        s.contains(x),
    ensures
        count_of(s, x) > 0,
    decreases s.len(),
{
    reveal(Seq::filter);
    if s.last() == x {
        assert(count_of(s.drop_last().push(x), x) == count_of(s.drop_last(), x) + 1) by {
            lemma_count_of_push(s.drop_last(), x, x);
        }
        assert(s.drop_last().push(s.last()) =~= s);
    } else {
        assert(s.drop_last().contains(x)) by {
            let i = choose|i: int| 0 <= i < s.len() && s[i] == x;
            assert(s.drop_last()[i] == x);
        }
        lemma_count_of_positive(s.drop_last(), x);
        lemma_count_of_push(s.drop_last(), x, s.last());
        assert(s.drop_last().push(s.last()) =~= s);
    }
}

/// The views of a sequence of strings.
pub open spec fn str_views(s: Seq<String>) -> Seq<Seq<char>> {
    s.map_values(|x: String| x@)
}

/// The timestamp and record key of a row: what the extrema and "last"
/// aggregates are computed from.
pub type Stamp = (DateTime, u64);

/// The earliest timestamp of a non-empty group.
pub open spec fn spec_min_dt(s: Seq<Stamp>) -> DateTime
    decreases s.len(),
{
    if s.len() <= 1 {
        s[0].0
    } else {
        let p = spec_min_dt(s.drop_last());
        if dt_le(p, s.last().0) {
            p
        } else {
            s.last().0
        }
    }
}

/// The latest timestamp of a non-empty group.
pub open spec fn spec_max_dt(s: Seq<Stamp>) -> DateTime
    decreases s.len(),
{
    if s.len() <= 1 {
        s[0].0
    } else {
        let p = spec_max_dt(s.drop_last());
        if dt_le(p, s.last().0) {
            s.last().0
        } else {
            p
        }
    }
}

/// The record key of the row with the greatest timestamp in a non-empty
/// group; rows later in scan order win ties.
pub open spec fn spec_latest(s: Seq<Stamp>) -> Stamp
    decreases s.len(),
{
    if s.len() <= 1 {
        s[0]
    } else {
        let p = spec_latest(s.drop_last());
        if dt_le(p.0, s.last().0) {
            s.last()
        } else {
            p
        }
    }
}

/// How each aggregate changes when one more row joins the group.
pub proof fn lemma_stamp_aggregates_push(s: Seq<Stamp>, x: Stamp)
    requires
        s.len() > 0,
    ensures
        spec_min_dt(s.push(x)) == (if dt_le(spec_min_dt(s), x.0) {
            spec_min_dt(s)
        } else {
            x.0
        }),
        spec_max_dt(s.push(x)) == (if dt_le(spec_max_dt(s), x.0) {
            x.0
        } else {
            spec_max_dt(s)
        }),
        spec_latest(s.push(x)) == (if dt_le(spec_latest(s).0, x.0) {
            x
        } else {
            spec_latest(s)
        }),
{
    let t = s.push(x);
    assert(t.drop_last() =~= s);
    assert(t.last() == x);
}

/// The minimum is no later than every timestamp in the group, and is one
/// of them.
pub proof fn lemma_min_dt_in(s: Seq<Stamp>)
    requires
        s.len() > 0,
    ensures
        forall|i: int| 0 <= i < s.len() ==> dt_le(spec_min_dt(s), #[trigger] s[i].0),
        exists|i: int| 0 <= i < s.len() && s[i].0 == spec_min_dt(s),
    decreases s.len(),
{
    if s.len() == 1 {
        assert(s[0].0 == spec_min_dt(s));
    } else {
        lemma_min_dt_in(s.drop_last());
        assert forall|i: int| 0 <= i < s.len() implies dt_le(spec_min_dt(s), #[trigger] s[i].0) by {
            if i < s.len() - 1 {
                assert(s.drop_last()[i] == s[i]);
            }
        }
        let p = spec_min_dt(s.drop_last());
        if dt_le(p, s.last().0) {
            let i = choose|i: int|
                0 <= i < s.drop_last().len() && s.drop_last()[i].0 == spec_min_dt(s.drop_last());
            assert(s[i].0 == spec_min_dt(s));
        } else {
            assert(s[s.len() - 1].0 == spec_min_dt(s));
        }
    }
}

/// The maximum is no earlier than every timestamp in the group, and is
/// one of them.
pub proof fn lemma_max_dt_in(s: Seq<Stamp>)
    requires
        s.len() > 0,
    ensures
        forall|i: int| 0 <= i < s.len() ==> dt_le(#[trigger] s[i].0, spec_max_dt(s)),
        exists|i: int| 0 <= i < s.len() && s[i].0 == spec_max_dt(s),
    decreases s.len(),
{
    if s.len() == 1 {
        assert(s[0].0 == spec_max_dt(s));
    } else {
        lemma_max_dt_in(s.drop_last());
        assert forall|i: int| 0 <= i < s.len() implies dt_le(#[trigger] s[i].0, spec_max_dt(s)) by {
            if i < s.len() - 1 {
                assert(s.drop_last()[i] == s[i]);
            }
        }
        let p = spec_max_dt(s.drop_last());
        if dt_le(p, s.last().0) {
            assert(s[s.len() - 1].0 == spec_max_dt(s));
        } else {
            let i = choose|i: int|
                0 <= i < s.drop_last().len() && s.drop_last()[i].0 == spec_max_dt(s.drop_last());
            assert(s[i].0 == spec_max_dt(s));
        }
    }
}

/// The "last" aggregate picks an actual row of the group, and no row has
/// a strictly later timestamp.
pub proof fn lemma_latest_in(s: Seq<Stamp>)
    requires
        s.len() > 0,
    ensures
        s.contains(spec_latest(s)),
        forall|i: int| 0 <= i < s.len() ==> !dt_lt(spec_latest(s).0, #[trigger] s[i].0),
    decreases s.len(),
{
    if s.len() == 1 {
        assert(s[0] == spec_latest(s));
    } else {
        lemma_latest_in(s.drop_last());
        let p = spec_latest(s.drop_last());
        assert forall|i: int| 0 <= i < s.len() implies !dt_lt(spec_latest(s).0, #[trigger] s[i].0) by {
            if i < s.len() - 1 {
                assert(s.drop_last()[i] == s[i]);
            }
        }
        if dt_le(p.0, s.last().0) {
            assert(s[s.len() - 1] == spec_latest(s));
        } else {
            let i = choose|i: int| 0 <= i < s.drop_last().len() && s.drop_last()[i] == p;
            assert(s[i] == spec_latest(s));
        }
    }
}

} // verus!
