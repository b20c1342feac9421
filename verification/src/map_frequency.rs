//! The map-frequency query: how many matches were played on each map,
//! optionally restricted by a map-title substring and by a participant
//! whose canonical name must match.

use vstd::prelude::*;

verus! {

use crate::aggregate::str_views;
use crate::meta::{ResponseMeta, ResponseMetaBuilder};
use crate::rank::{RankOrd, limit_rows, rank_rows, sort_by_rank};
use crate::records::{MatchRecord, RowView, explode, row_views, spec_explode};
use crate::text::{canon_of, canonical_name, contains_ci, seq_char_lt, str_contains_ci};
use crate::topk::{
    CountEntry,
    CountPair,
    cp_view,
    cp_views,
    lemma_sort_bridge,
    lemma_sort_ce_counts_bound,
    lemma_value_counts_comparable,
    sort_ce,
    spec_value_counts,
    value_count_pairs,
};

/// The page bound of the map-frequency listing, enforced server-side.
pub const MAP_FREQ_LIMIT: usize = 1000;

/// Filters of the map-frequency query; an unset filter keeps every row.
#[derive(Debug, Default)]
pub struct ListDetailsMapFreqReq {
    /// Case-insensitive substring of the map title.
    pub title: Option<String>,
    /// Case-insensitive substring of the canonical name of a participant
    /// that must have played in the match.
    pub player: Option<String>,
}

/// The map-frequency response: envelope plus ranked rows.
#[derive(Debug, Default)]
pub struct ListDetailsMapFreqRes {
    /// Metadata of the response.
    pub meta: ResponseMeta,
    /// The data of the response.
    pub data: Vec<MapFrequency>,
}

impl ListDetailsMapFreqRes {
    /// The structurally valid envelope returned when the query fails
    /// upstream: an error status carrying the message, zero rows, and no
    /// data. Partial results are never returned.
    pub fn error(message: String) -> (r: Self)
        ensures
            r.meta.status == (crate::meta::ResponseStatus::Error { message }),
            r.meta.total == 0,
            r.data@.len() == 0,
    {
        ListDetailsMapFreqRes {
            meta: ResponseMetaBuilder::new().with_error(message).build(),
            data: Vec::new(),
        }
    }
}

/// One ranked row: a map title and how many times it occurred.
#[derive(Debug)]
pub struct MapFrequency {
    /// The name of the map.
    pub title: String,
    /// The number of occurrences on this map.
    pub count: u32,
}

impl Clone for MapFrequency {
    fn clone(&self) -> (r: Self)
        ensures
            r == *self,
    {
        MapFrequency { title: self.title.clone(), count: self.count }
    }
}

/// The mathematical content of a [`MapFrequency`] row.
pub ghost struct MapFrequencyView {
    /// The name of the map.
    pub title: Seq<char>,
    /// The number of occurrences on this map.
    pub count: u32,
}

impl View for MapFrequency {
    type V = MapFrequencyView;

    open spec fn view(&self) -> MapFrequencyView {
        MapFrequencyView { title: self.title@, count: self.count }
    }
}

/// The views of a sequence of map-frequency rows.
pub open spec fn mf_views(s: Seq<MapFrequency>) -> Seq<MapFrequencyView> {
    s.map_values(|m: MapFrequency| m@)
}

/// An unset title filter keeps every title; a set one keeps titles that
/// hold it as a case-insensitive substring.
pub open spec fn opt_title_keeps(title: Seq<char>, filt: Option<String>) -> bool {
    match filt {
        Option::Some(t) => contains_ci(title, t@),
        Option::None => true,
    }
}

/// The titles of the records that pass the title filter.
pub open spec fn match_titles(recs: Seq<MatchRecord>, req: ListDetailsMapFreqReq) -> Seq<
    Seq<char>,
> {
    recs.filter(|r: MatchRecord| opt_title_keeps(r.map_title@, req.title)).map_values(
        |r: MatchRecord| r.map_title@,
    )
}

/// The titles of the participant rows that pass the title filter and
/// whose player's canonical name holds the player filter.
pub open spec fn row_titles(rows: Seq<RowView>, req: ListDetailsMapFreqReq) -> Seq<Seq<char>> {
    rows.filter(
        |rv: RowView|
            opt_title_keeps(rv.map_title, req.title) && (match req.player {
                Option::Some(p) => contains_ci(canon_of(rv.display_name), p@),
                Option::None => true,
            }),
    ).map_values(|rv: RowView| rv.map_title)
}

/// The title occurrences the query counts: match records when no player
/// filter is set, participant rows when one is.
pub open spec fn spec_freq_titles(recs: Seq<MatchRecord>, req: ListDetailsMapFreqReq) -> Seq<
    Seq<char>,
> {
    match req.player {
        Option::Some(_) => row_titles(spec_explode(recs), req),
        Option::None => match_titles(recs, req),
    }
}

/// Map-frequency rows from ranked count entries.
pub open spec fn mf_rows_of(s: Seq<CountEntry>) -> Seq<MapFrequencyView> {
    s.map_values(|e: CountEntry| MapFrequencyView { title: e.value, count: e.count as u32 })
}

/// The whole query, as a function: ranked title counts, greater counts
/// first, ties broken by ascending title, truncated to the page bound.
pub open spec fn spec_map_freq(recs: Seq<MatchRecord>, req: ListDetailsMapFreqReq) -> Seq<
    MapFrequencyView,
> {
    let ranked = sort_ce(spec_value_counts(spec_freq_titles(recs, req)));
    let n = if (MAP_FREQ_LIMIT as int) < ranked.len() {
        MAP_FREQ_LIMIT as int
    } else {
        ranked.len() as int
    };
    mf_rows_of(ranked.take(n))
}

/// Appending a record extends the filtered titles by its title exactly
/// when it passes the filter.
proof fn lemma_match_titles_push(recs: Seq<MatchRecord>, req: ListDetailsMapFreqReq, x: MatchRecord)
    ensures
        match_titles(recs.push(x), req) == (if opt_title_keeps(x.map_title@, req.title) {
            match_titles(recs, req).push(x.map_title@)
        } else {
            match_titles(recs, req)
        }),
{
    broadcast use Seq::lemma_push_map_commute;

    reveal(Seq::filter);
    let t = recs.push(x);
    assert(t.drop_last() =~= recs);
    assert(t.last() == x);
}

/// Appending a participant row extends the filtered titles by its title
/// exactly when it passes both filters.
proof fn lemma_row_titles_push(rows: Seq<RowView>, req: ListDetailsMapFreqReq, x: RowView)
    ensures
        row_titles(rows.push(x), req) == (if opt_title_keeps(x.map_title, req.title) && (
        match req.player {
            Option::Some(p) => contains_ci(canon_of(x.display_name), p@),
            Option::None => true,
        }) {
            row_titles(rows, req).push(x.map_title)
        } else {
            row_titles(rows, req)
        }),
{
    broadcast use Seq::lemma_push_map_commute;

    reveal(Seq::filter);
    let t = rows.push(x);
    assert(t.drop_last() =~= rows);
    assert(t.last() == x);
}

/// Decides the title filter.
fn title_ok(title: &String, filt: &Option<String>) -> (r: bool)
    ensures
        r == opt_title_keeps(title@, *filt),
{
    match filt {
        Option::Some(t) => str_contains_ci(title.as_str(), t.as_str()),
        Option::None => true,
    }
}

/// The title occurrences the query counts, as owned strings.
fn collect_freq_titles(records: &Vec<MatchRecord>, req: &ListDetailsMapFreqReq) -> (r: Vec<String>)
    ensures
        str_views(r@) == spec_freq_titles(records@, *req),
{
    let mut titles: Vec<String> = Vec::new();
    match &req.player {
        Option::None => {
            let n = records.len();
            let mut i: usize = 0;
            proof {
                assert(records@.take(0) =~= Seq::<MatchRecord>::empty());
                reveal(Seq::filter);
                assert(str_views(titles@) =~= match_titles(records@.take(0), *req));
            }
            while i < n
                invariant
                    n == records@.len(),
                    i <= n,
                    req.player is None,
                    str_views(titles@) == match_titles(records@.take(i as int), *req),
                decreases n - i,
            {
                proof {
                    assert(records@.take(i + 1) =~= records@.take(i as int).push(
                        records@[i as int],
                    ));
                    lemma_match_titles_push(records@.take(i as int), *req, records@[i as int]);
                }
                if title_ok(&records[i].map_title, &req.title) {
                    let ghost prev = titles@;
                    titles.push(records[i].map_title.clone());
                    proof {
                        lemma_str_views_push(prev, titles@);
                        assert(titles@[titles@.len() - 1]@ == records@[i as int].map_title@);
                    }
                }
                i = i + 1;
            }
            proof {
                assert(records@.take(n as int) =~= records@);
            }
        },
        Option::Some(player) => {
            let rows = explode(records);
            let ghost rv = row_views(rows@);
            let n = rows.len();
            let mut i: usize = 0;
            proof {
                assert(rv.take(0) =~= Seq::<RowView>::empty());
                reveal(Seq::filter);
                assert(str_views(titles@) =~= row_titles(rv.take(0), *req));
                assert(rv.len() == rows@.len());
            }
            while i < n
                invariant
                    n == rows@.len(),
                    i <= n,
                    req.player == Option::Some(*player),
                    rv == row_views(rows@),
                    rv.len() == n,
                    str_views(titles@) == row_titles(rv.take(i as int), *req),
                decreases n - i,
            {
                proof {
                    assert(rv.take(i + 1) =~= rv.take(i as int).push(rv[i as int]));
                    assert(rv[i as int] == rows@[i as int]@);
                    lemma_row_titles_push(rv.take(i as int), *req, rv[i as int]);
                }
                let row = &rows[i];
                let canon = canonical_name(row.display_name.as_str());
                if title_ok(&row.map_title, &req.title) && str_contains_ci(
                    canon.as_str(),
                    player.as_str(),
                ) {
                    let ghost prev = titles@;
                    titles.push(row.map_title.clone());
                    proof {
                        lemma_str_views_push(prev, titles@);
                        assert(titles@[titles@.len() - 1]@ == rows@[i as int]@.map_title);
                    }
                }
                i = i + 1;
            }
            proof {
                assert(rv.take(n as int) =~= rv);
                assert(row_titles(rv, *req) == spec_freq_titles(records@, *req));
            }
        },
    }
    titles
}

/// Pushing a string extends the string views by its view: stated over the
/// states before and after the push.
pub(crate) proof fn lemma_str_views_push(before: Seq<String>, after: Seq<String>)
    requires
        after.len() == before.len() + 1,
        forall|k: int| 0 <= k < before.len() ==> after[k] == before[k],
    ensures
        str_views(after) == str_views(before).push(after[after.len() - 1]@),
{
    let lhs = str_views(after);
    let rhs = str_views(before).push(after[after.len() - 1]@);
    assert forall|u: int| 0 <= u < lhs.len() implies lhs[u] == rhs[u] by {
        assert(lhs[u] == after[u]@);
        if u < before.len() {
            assert(after[u] == before[u]);
            assert(str_views(before)[u] == before[u]@);
        }
    }
    assert(lhs =~= rhs);
}

/// Answers the map-frequency query: the filtered title occurrences are
/// counted per distinct title, ranked by descending count with ties
/// broken by ascending title, and truncated to the page bound. The
/// envelope's total equals the number of returned rows.
pub fn get_map_freq(records: &Vec<MatchRecord>, req: &ListDetailsMapFreqReq) -> (r:
    ListDetailsMapFreqRes)
    requires
        records@.len() <= 0xFFFF_FFFF,
        spec_explode(records@).len() <= 0xFFFF_FFFF,
    ensures
        mf_views(r.data@) == spec_map_freq(records@, *req),
        r.meta.total == r.data@.len(),
        r.meta.status is Success,
        r.data@.len() <= MAP_FREQ_LIMIT,
        forall|i: int, j: int|
            0 <= i < j < r.data@.len() ==> ((#[trigger] r.data@[j]).count < (
            #[trigger] r.data@[i]).count || (r.data@[j].count == r.data@[i].count && seq_char_lt(
                r.data@[i].title@,
                r.data@[j].title@,
            ))),
{
    let meta = ResponseMetaBuilder::new();
    let titles = collect_freq_titles(records, req);
    let ghost vals_v = str_views(titles@);
    let ghost vc = spec_value_counts(vals_v);
    proof {
        broadcast use vstd::seq_lib::group_filter_ensures;

        assert(vals_v.len() <= 0xFFFF_FFFF) by {
            match req.player {
                Option::Some(_) => {
                    assert(vals_v.len() == row_titles(spec_explode(records@), *req).len());
                },
                Option::None => {
                    assert(vals_v.len() == match_titles(records@, *req).len());
                },
            }
        }
    }
    let pairs = value_count_pairs(&titles);
    let ghost pairs_v = pairs@;
    proof {
        lemma_value_counts_comparable(pairs_v, vals_v);
    }
    let mut ranked = rank_rows(pairs);
    proof {
        lemma_sort_bridge(pairs_v);
        crate::rank::lemma_sort_by_rank_strict::<CountPair>(pairs_v);
        lemma_sort_ce_counts_bound(vals_v);
    }
    limit_rows(&mut ranked, MAP_FREQ_LIMIT);
    let ghost sorted = sort_ce(vc);
    let ghost n_take = vstd::math::min(MAP_FREQ_LIMIT as int, sorted.len() as int);
    proof {
        assert(cp_views(ranked@) =~= sorted.take(n_take)) by {
            assert forall|t: int| 0 <= t < ranked@.len() implies cp_views(ranked@)[t]
                == sorted.take(n_take)[t] by {
                assert(ranked@[t] == sort_by_rank(pairs_v)[t]);
                assert(cp_views(sort_by_rank(pairs_v))[t] == cp_view(sort_by_rank(pairs_v)[t]));
            }
            assert(cp_views(ranked@).len() == ranked@.len());
        }
    }
    let ghost target = spec_map_freq(records@, *req);
    let mut data: Vec<MapFrequency> = Vec::new();
    let mut input = ranked;
    let ghost rv = cp_views(input@);
    let total = input.len();
    let mut t: usize = 0;
    proof {
        assert(mf_views(data@) =~= mf_rows_of(rv.take(0)));
        assert(cp_views(input@) =~= rv.subrange(0, rv.len() as int));
    }
    while input.len() > 0
        invariant
            t <= total,
            total == rv.len(),
            cp_views(input@) == rv.subrange(t as int, rv.len() as int),
            mf_views(data@) == mf_rows_of(rv.take(t as int)),
            forall|u: int| 0 <= u < rv.len() ==> 0 < (#[trigger] rv[u]).count <= 0xFFFF_FFFF,
        decreases input@.len(),
    {
        let ghost old_input = input@;
        let p = input.remove(0);
        proof {
            assert(p == old_input[0]);
            assert(cp_views(old_input) == rv.subrange(t as int, rv.len() as int));
            assert(cp_views(old_input).len() == old_input.len());
            assert(old_input.len() > 0);
            assert(t < rv.len());
            assert(rv.subrange(t as int, rv.len() as int)[0] == rv[t as int]);
            assert(cp_views(old_input)[0] == cp_view(old_input[0]));
            assert(cp_view(p) == rv[t as int]);
            assert(input@ =~= old_input.subrange(1, old_input.len() as int));
            assert forall|u: int| 0 <= u < input@.len() implies cp_views(input@)[u] == rv.subrange(
                t + 1,
                rv.len() as int,
            )[u] by {
                assert(input@[u] == old_input[u + 1]);
                assert(cp_views(input@)[u] == cp_view(input@[u]));
                assert(cp_views(old_input)[u + 1] == cp_view(old_input[u + 1]));
                assert(rv.subrange(t as int, rv.len() as int)[u + 1] == rv[t + 1 + u]);
                assert(rv.subrange(t + 1, rv.len() as int)[u] == rv[t + 1 + u]);
            }
            assert(cp_views(input@) =~= rv.subrange(t + 1, rv.len() as int));
        }
        let ghost prev_data = data@;
        data.push(MapFrequency { title: p.value, count: p.count as u32 });
        proof {
            let lhs = mf_views(data@);
            let rhs = mf_rows_of(rv.take(t + 1));
            assert(mf_views(prev_data).len() == prev_data.len());
            assert(mf_rows_of(rv.take(t as int)).len() == rv.take(t as int).len());
            assert(prev_data.len() == t);
            assert(data@.len() == t + 1);
            assert(lhs.len() == t + 1);
            assert(rhs.len() == t + 1);
            assert(rv.take(t + 1) =~= rv.take(t as int).push(rv[t as int]));
            assert forall|u: int| 0 <= u < lhs.len() implies lhs[u] == rhs[u] by {
                assert(lhs[u] == data@[u]@);
                assert(rhs[u] == MapFrequencyView {
                    title: rv.take(t + 1)[u].value,
                    count: rv.take(t + 1)[u].count as u32,
                });
                if u < prev_data.len() {
                    assert(data@[u] == prev_data[u]);
                    assert(mf_views(prev_data)[u] == prev_data[u]@);
                    assert(mf_rows_of(rv.take(t as int))[u] == MapFrequencyView {
                        title: rv.take(t as int)[u].value,
                        count: rv.take(t as int)[u].count as u32,
                    });
                    assert(rv.take(t + 1)[u] == rv.take(t as int)[u]);
                } else {
                    assert(rv.take(t + 1)[u] == rv[t as int]);
                }
            }
            assert(lhs =~= rhs);
        }
        t = t + 1;
    }
    proof {
        assert(rv.take(rv.len() as int) =~= rv);
        assert(mf_views(data@) == mf_rows_of(rv));
        assert(rv =~= sorted.take(n_take));
        assert(mf_views(data@) == target);
        assert forall|i: int, j: int| 0 <= i < j < data@.len() implies ((#[trigger] data@[j]).count
            < (#[trigger] data@[i]).count || (data@[j].count == data@[i].count && seq_char_lt(
            data@[i].title@,
            data@[j].title@,
        ))) by {
            assert(CountPair::before(sort_by_rank(pairs_v)[i], sort_by_rank(pairs_v)[j]));
            assert(mf_views(data@)[i] == data@[i]@);
            assert(mf_views(data@)[j] == data@[j]@);
            assert(rv[i] == cp_view(sort_by_rank(pairs_v)[i]));
            assert(rv[j] == cp_view(sort_by_rank(pairs_v)[j]));
            assert(data@[i]@ == mf_rows_of(rv)[i]);
            assert(data@[j]@ == mf_rows_of(rv)[j]);
            assert(mf_rows_of(rv)[i] == MapFrequencyView { title: rv[i].value, count: rv[i].count as u32 });
            assert(mf_rows_of(rv)[j] == MapFrequencyView { title: rv[j].value, count: rv[j].count as u32 });
        }
    }
    let total_rows = data.len();
    ListDetailsMapFreqRes { meta: meta.with_total(total_rows).build(), data }
}

} // verus!
