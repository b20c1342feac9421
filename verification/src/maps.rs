//! The per-map statistics query: matches are filtered by title, player,
//! file name, identifier and date range; grouped by map title; counted and
//! aggregated; enriched with the latest record id and the top players per
//! map; ranked by descending count; and truncated to the page bound.

use vstd::prelude::*;

verus! {

use crate::aggregate::{
    Stamp,
    count_of,
    dedup_first,
    lemma_dedup_first_contains,
    spec_latest,
    spec_max_dt,
    spec_min_dt,
    str_views,
};
use crate::datetime::{Date, DateTime, default_max_date, default_min_date, dt_le, dt_lt};
use crate::meta::{ResponseMeta, ResponseMetaBuilder};
use crate::rank::{RankOrd, limit_rows, rank_rows, sort_by, sort_by_rank};
use crate::records::{MatchRecord, Participant};
use crate::text::{
    canon_of,
    canonical_name,
    contains_ci,
    dec_of,
    lemma_seq_char_connected,
    lemma_seq_char_lt_irrefl,
    lemma_seq_char_lt_trans,
    seq_char_lt,
    str_contains_ci,
    str_lt,
    u64_to_dec_string,
    url_decode,
    url_decoded_of,
};
use crate::topk::{spec_top_k, top_k_frequency};

/// The page bound of the map-statistics listing, enforced server-side.
pub const MAP_STATS_LIMIT: usize = 10000;

/// How many top players each map row carries.
pub const TOP_PLAYERS_PER_MAP: usize = 5;

/// Filters of the map-statistics query; an empty string leaves the
/// corresponding filter out.
#[derive(Debug)]
pub struct ListDetailsMapReq {
    /// Case-insensitive substring of the map title.
    pub title: String,
    /// A player that must have played in the match: a case-insensitive
    /// substring of a canonical participant name. When `player_2` is also
    /// set, both names are matched exactly instead, restricting the
    /// statistics to head-to-head matches of the two.
    pub player_1: String,
    /// The second player of a head-to-head query; effective only together
    /// with `player_1`.
    pub player_2: String,
    /// Case-insensitive substring of the replay file name.
    pub file_name: String,
    /// Exact decimal record identifier.
    pub replay_id: String,
    /// Inclusive lower bound on the recorded date.
    pub file_min_date: Date,
    /// Exclusive upper bound on the recorded date.
    pub file_max_date: Date,
}

impl Clone for ListDetailsMapReq {
    fn clone(&self) -> (r: Self)
        ensures
            r == *self,
    {
        ListDetailsMapReq {
            title: self.title.clone(),
            player_1: self.player_1.clone(),
            player_2: self.player_2.clone(),
            file_name: self.file_name.clone(),
            replay_id: self.replay_id.clone(),
            file_min_date: self.file_min_date,
            file_max_date: self.file_max_date,
        }
    }
}

impl Default for ListDetailsMapReq {
    /// The open query: no text filters, and the documented default date
    /// range from the fixed epoch floor to the current date.
    fn default() -> (r: Self)
        ensures
            r.title@.len() == 0,
            r.player_1@.len() == 0,
            r.player_2@.len() == 0,
            r.file_name@.len() == 0,
            r.replay_id@.len() == 0,
            r.file_min_date == (Date { year: 2000, month: 1, day: 1 }),
            r.file_max_date.valid(),
    {
        ListDetailsMapReq {
            title: String::new(),
            player_1: String::new(),
            player_2: String::new(),
            file_name: String::new(),
            replay_id: String::new(),
            file_min_date: default_min_date(),
            file_max_date: default_max_date(),
        }
    }
}

impl ListDetailsMapReq {
    /// The documented floor offered for open-ended date filters.
    pub fn default_min_date() -> (r: Date)
        ensures
            r == (Date { year: 2000, month: 1, day: 1 }),
            r.valid(),
    {
        default_min_date()
    }

    /// The documented ceiling offered for open-ended date filters: the
    /// current local date.
    pub fn default_max_date() -> (r: Date)
        ensures
            r.valid(),
    {
        default_max_date()
    }

    /// The request with its text filters percent-decoded, as they arrive
    /// from a query string. The identifier and the dates are taken as
    /// they are.
    pub fn from_escaped(self) -> (r: Self)
        ensures
            r.title@ == url_decoded_of(self.title@),
            r.player_1@ == url_decoded_of(self.player_1@),
            r.player_2@ == url_decoded_of(self.player_2@),
            r.file_name@ == url_decoded_of(self.file_name@),
            r.replay_id == self.replay_id,
            r.file_min_date == self.file_min_date,
            r.file_max_date == self.file_max_date,
    {
        ListDetailsMapReq {
            title: url_decode(self.title.as_str()),
            player_1: url_decode(self.player_1.as_str()),
            player_2: url_decode(self.player_2.as_str()),
            file_name: url_decode(self.file_name.as_str()),
            replay_id: self.replay_id,
            file_min_date: self.file_min_date,
            file_max_date: self.file_max_date,
        }
    }
}

/// The map-statistics response: envelope plus ranked rows.
#[derive(Debug, Default)]
pub struct ListDetailsMapRes {
    /// Metadata of the response.
    pub meta: ResponseMeta,
    /// The data of the response.
    pub data: Vec<MapStats>,
}

impl ListDetailsMapRes {
    /// The structurally valid envelope returned when the query fails
    /// upstream: an error status carrying the message, zero rows, and no
    /// data. Partial results are never returned.
    pub fn error(message: String) -> (r: Self)
        ensures
            r.meta.status == (crate::meta::ResponseStatus::Error { message }),
            r.meta.total == 0,
            r.data@.len() == 0,
    {
        ListDetailsMapRes {
            meta: ResponseMetaBuilder::new().with_error(message).build(),
            data: Vec::new(),
        }
    }
}

/// One ranked row of per-map statistics.
#[derive(Debug)]
pub struct MapStats {
    /// The name of the map.
    pub title: String,
    /// The number of matches on this map.
    pub count: u32,
    /// The earliest recorded timestamp among those matches.
    pub min_date: DateTime,
    /// The latest recorded timestamp among those matches.
    pub max_date: DateTime,
    /// The record id of the most recently recorded match on this map.
    pub latest_replay_id: u64,
    /// The most frequent players on this map, at most five, most frequent
    /// first.
    pub top_players: Vec<String>,
}

impl Clone for MapStats {
    fn clone(&self) -> (r: Self)
        ensures
            r@ == self@,
    {
        let top_players = self.top_players.clone();
        proof {
            assert(str_views(top_players@) =~= str_views(self.top_players@));
        }
        MapStats {
            title: self.title.clone(),
            count: self.count,
            min_date: self.min_date,
            max_date: self.max_date,
            latest_replay_id: self.latest_replay_id,
            top_players,
        }
    }
}

/// The mathematical content of a [`MapStats`] row.
pub ghost struct MapStatsView {
    /// The name of the map.
    pub title: Seq<char>,
    /// The number of matches on this map.
    pub count: u32,
    /// The earliest recorded timestamp among those matches.
    pub min_date: DateTime,
    /// The latest recorded timestamp among those matches.
    pub max_date: DateTime,
    /// The record id of the most recently recorded match on this map.
    pub latest_replay_id: u64,
    /// The most frequent players on this map, most frequent first.
    pub top_players: Seq<Seq<char>>,
}

impl View for MapStats {
    type V = MapStatsView;

    open spec fn view(&self) -> MapStatsView {
        MapStatsView {
            title: self.title@,
            count: self.count,
            min_date: self.min_date,
            max_date: self.max_date,
            latest_replay_id: self.latest_replay_id,
            top_players: str_views(self.top_players@),
        }
    }
}

/// The views of a sequence of map-statistics rows.
pub open spec fn ms_views(s: Seq<MapStats>) -> Seq<MapStatsView> {
    s.map_values(|m: MapStats| m@)
}

/// Per-race aggregate counts for one map.
#[derive(Debug, Clone, Copy, PartialEq, Eq, Structural)]
pub struct RaceStats {
    /// The race these counts are about.
    pub race: crate::records::Race,
    /// The number of matches.
    pub count: u32,
    /// The number of wins.
    pub wins: u32,
    /// The number of losses.
    pub losses: u32,
}

/// The timestamp lies in the inclusive-exclusive range spanned by the two
/// dates, each taken at its opening midnight.
pub open spec fn in_date_range(dt: DateTime, min: Date, max: Date) -> bool {
    dt_le(min.spec_midnight(), dt) && dt_lt(dt, max.spec_midnight())
}

/// The record passes the date, title, file-name and identifier filters.
pub open spec fn spec_base_keeps(rec: MatchRecord, req: ListDetailsMapReq) -> bool {
    &&& in_date_range(rec.recorded_at, req.file_min_date, req.file_max_date)
    &&& (req.title@.len() == 0 || contains_ci(rec.map_title@, req.title@))
    &&& (req.file_name@.len() == 0 || contains_ci(rec.file_name@, req.file_name@))
    &&& (req.replay_id@.len() == 0 || dec_of(rec.record_id as int) == req.replay_id@)
}

/// Some participant's canonical name equals the given name.
pub open spec fn spec_has_player(rec: MatchRecord, name: Seq<char>) -> bool {
    exists|k: int|
        0 <= k < rec.participants@.len() && canon_of(
            #[trigger] rec.participants@[k].display_name@,
        ) == name
}

/// Some participant's canonical name holds the given name as a
/// case-insensitive substring.
pub open spec fn spec_has_player_ci(rec: MatchRecord, name: Seq<char>) -> bool {
    exists|k: int|
        0 <= k < rec.participants@.len() && contains_ci(
            canon_of(#[trigger] rec.participants@[k].display_name@),
            name,
        )
}

/// The record passes the player filters: with both players set, each must
/// appear exactly among the participants (head-to-head); with only the
/// first set, it is matched as a case-insensitive substring; otherwise no
/// player restriction applies.
pub open spec fn spec_player_keeps(rec: MatchRecord, req: ListDetailsMapReq) -> bool {
    if req.player_1@.len() > 0 && req.player_2@.len() > 0 {
        spec_has_player(rec, req.player_1@) && spec_has_player(rec, req.player_2@)
    } else if req.player_1@.len() > 0 {
        spec_has_player_ci(rec, req.player_1@)
    } else {
        true
    }
}

/// The record belongs to the primary relation of the query.
pub open spec fn spec_primary_keeps(rec: MatchRecord, req: ListDetailsMapReq) -> bool {
    spec_base_keeps(rec, req) && spec_player_keeps(rec, req)
}

/// The titles of the primary relation, one per kept record, in scan
/// order.
pub open spec fn primary_titles(recs: Seq<MatchRecord>, req: ListDetailsMapReq) -> Seq<Seq<char>> {
    recs.filter(|r: MatchRecord| spec_primary_keeps(r, req)).map_values(
        |r: MatchRecord| r.map_title@,
    )
}

/// The primary group of one map title: the kept records played on it.
pub open spec fn primary_group(recs: Seq<MatchRecord>, req: ListDetailsMapReq, t: Seq<char>) -> Seq<
    MatchRecord,
> {
    recs.filter(|r: MatchRecord| spec_primary_keeps(r, req) && r.map_title@ == t)
}

/// The timestamp and record id of each record of a group.
pub open spec fn group_stamps(g: Seq<MatchRecord>) -> Seq<Stamp> {
    g.map_values(|r: MatchRecord| (r.recorded_at, r.record_id))
}

/// The canonical participant names on one map over the base relation (the
/// records passing every filter but the player one): the auxiliary
/// grouped table that enriches each map row with its top players.
pub open spec fn base_names(recs: Seq<MatchRecord>, req: ListDetailsMapReq, t: Seq<char>) -> Seq<
    Seq<char>,
>
    decreases recs.len(),
{
    if recs.len() == 0 {
        Seq::empty()
    } else {
        base_names(recs.drop_last(), req, t) + (if spec_base_keeps(recs.last(), req)
            && recs.last().map_title@ == t {
            recs.last().participants@.map_values(|p: Participant| canon_of(p.display_name@))
        } else {
            Seq::empty()
        })
    }
}

/// The statistics row of one map title.
pub open spec fn map_stat_of(recs: Seq<MatchRecord>, req: ListDetailsMapReq, t: Seq<char>) -> MapStatsView {
    let g = primary_group(recs, req, t);
    let st = group_stamps(g);
    MapStatsView {
        title: t,
        count: g.len() as u32,
        min_date: spec_min_dt(st),
        max_date: spec_max_dt(st),
        latest_replay_id: spec_latest(st).1,
        top_players: spec_top_k(base_names(recs, req, t), TOP_PLAYERS_PER_MAP as int),
    }
}

/// The unranked statistics rows of the given map titles.
pub open spec fn map_stats_rows(
    recs: Seq<MatchRecord>,
    req: ListDetailsMapReq,
    keys: Seq<Seq<char>>,
) -> Seq<MapStatsView> {
    keys.map_values(|t: Seq<char>| map_stat_of(recs, req, t))
}

/// Ranking order of map rows: greater counts first, then lesser titles
/// first.
pub open spec fn msv_before(a: MapStatsView, b: MapStatsView) -> bool {
    a.count > b.count || (a.count == b.count && seq_char_lt(a.title, b.title))
}

/// The ranking order as a function value, for the specification-level
/// sort.
pub open spec fn msv_order() -> spec_fn(MapStatsView, MapStatsView) -> bool {
    |a: MapStatsView, b: MapStatsView| msv_before(a, b)
}

/// The whole query, as a function: one row per distinct map title of the
/// primary relation, ranked by descending count with ties broken by
/// ascending title, truncated to the page bound.
pub open spec fn spec_map_stats(recs: Seq<MatchRecord>, req: ListDetailsMapReq) -> Seq<
    MapStatsView,
> {
    let keys = dedup_first(primary_titles(recs, req));
    let ranked = sort_by(map_stats_rows(recs, req, keys), msv_order());
    let n = if (MAP_STATS_LIMIT as int) < ranked.len() {
        MAP_STATS_LIMIT as int
    } else {
        ranked.len() as int
    };
    ranked.take(n)
}

impl RankOrd for MapStats {
    open spec fn before(a: MapStats, b: MapStats) -> bool {
        msv_before(a@, b@)
    }

    proof fn lemma_weak_order(a: MapStats, b: MapStats, c: MapStats) {
        lemma_seq_char_lt_trans(a.title@, b.title@, c.title@);
        lemma_seq_char_lt_irrefl(a.title@);
        lemma_seq_char_connected(a.title@, b.title@);
        lemma_seq_char_connected(b.title@, c.title@);
        lemma_seq_char_connected(a.title@, c.title@);
    }

    fn cmp_before(a: &MapStats, b: &MapStats) -> (r: bool) {
        if a.count != b.count {
            a.count > b.count
        } else {
            str_lt(a.title.as_str(), b.title.as_str())
        }
    }
}

/// Decides the date, title, file-name and identifier filters.
fn keeps_base(rec: &MatchRecord, req: &ListDetailsMapReq) -> (r: bool)
    ensures
        r == spec_base_keeps(*rec, *req),
{
    let min_mid = req.file_min_date.midnight();
    let max_mid = req.file_max_date.midnight();
    let in_range = min_mid.le(&rec.recorded_at) && rec.recorded_at.lt(&max_mid);
    let title_ok = req.title.as_str().is_empty() || str_contains_ci(
        rec.map_title.as_str(),
        req.title.as_str(),
    );
    let file_ok = req.file_name.as_str().is_empty() || str_contains_ci(
        rec.file_name.as_str(),
        req.file_name.as_str(),
    );
    let id_ok = req.replay_id.as_str().is_empty() || u64_to_dec_string(rec.record_id).eq(
        &req.replay_id,
    );
    in_range && title_ok && file_ok && id_ok
}

/// Decides whether some participant's canonical name equals the given
/// name.
fn has_player_exact(rec: &MatchRecord, name: &String) -> (r: bool)
    ensures
        r == spec_has_player(*rec, name@),
{
    let m = rec.participants.len();
    let mut k: usize = 0;
    while k < m
        invariant
            m == rec.participants@.len(),
            k <= m,
            forall|u: int|
                0 <= u < k ==> canon_of(#[trigger] rec.participants@[u].display_name@) != name@,
        decreases m - k,
    {
        let canon = canonical_name(rec.participants[k].display_name.as_str());
        if canon.eq(name) {
            return true;
        }
        k = k + 1;
    }
    false
}

/// Decides whether some participant's canonical name holds the given name
/// as a case-insensitive substring.
fn has_player_ci(rec: &MatchRecord, name: &String) -> (r: bool)
    ensures
        r == spec_has_player_ci(*rec, name@),
{
    let m = rec.participants.len();
    let mut k: usize = 0;
    while k < m
        invariant
            m == rec.participants@.len(),
            k <= m,
            forall|u: int|
                0 <= u < k ==> !contains_ci(
                    canon_of(#[trigger] rec.participants@[u].display_name@),
                    name@,
                ),
        decreases m - k,
    {
        let canon = canonical_name(rec.participants[k].display_name.as_str());
        if str_contains_ci(canon.as_str(), name.as_str()) {
            return true;
        }
        k = k + 1;
    }
    false
}

/// Decides membership in the primary relation.
fn keeps_primary(rec: &MatchRecord, req: &ListDetailsMapReq) -> (r: bool)
    ensures
        r == spec_primary_keeps(*rec, *req),
{
    if !keeps_base(rec, req) {
        return false;
    }
    if !req.player_1.as_str().is_empty() && !req.player_2.as_str().is_empty() {
        has_player_exact(rec, &req.player_1) && has_player_exact(rec, &req.player_2)
    } else if !req.player_1.as_str().is_empty() {
        has_player_ci(rec, &req.player_1)
    } else {
        true
    }
}


/// Appending a record extends the primary titles by its title exactly when
/// it is kept.
proof fn lemma_primary_titles_push(recs: Seq<MatchRecord>, req: ListDetailsMapReq, x: MatchRecord)
    ensures
        primary_titles(recs.push(x), req) == (if spec_primary_keeps(x, req) {
            primary_titles(recs, req).push(x.map_title@)
        } else {
            primary_titles(recs, req)
        }),
{
    broadcast use Seq::lemma_push_map_commute;

    reveal(Seq::filter);
    let t = recs.push(x);
    assert(t.drop_last() =~= recs);
    assert(t.last() == x);
}

/// Appending a record extends a primary group by the record exactly when
/// it is kept and played on the group's map.
proof fn lemma_primary_group_push(
    recs: Seq<MatchRecord>,
    req: ListDetailsMapReq,
    t: Seq<char>,
    x: MatchRecord,
)
    ensures
        primary_group(recs.push(x), req, t) == (if spec_primary_keeps(x, req) && x.map_title@ == t {
            primary_group(recs, req, t).push(x)
        } else {
            primary_group(recs, req, t)
        }),
{
    reveal(Seq::filter);
    let s = recs.push(x);
    assert(s.drop_last() =~= recs);
    assert(s.last() == x);
}

/// Appending a record extends the per-map names by its participants'
/// canonical names exactly when it passes the base filters on that map.
proof fn lemma_base_names_push(
    recs: Seq<MatchRecord>,
    req: ListDetailsMapReq,
    t: Seq<char>,
    x: MatchRecord,
)
    ensures
        base_names(recs.push(x), req, t) == (if spec_base_keeps(x, req) && x.map_title@ == t {
            base_names(recs, req, t) + x.participants@.map_values(
                |p: Participant| canon_of(p.display_name@),
            )
        } else {
            base_names(recs, req, t)
        }),
{
    let s = recs.push(x);
    assert(s.drop_last() =~= recs);
    assert(s.last() == x);
    if !(spec_base_keeps(x, req) && x.map_title@ == t) {
        assert(base_names(s, req, t) =~= base_names(recs, req, t));
    }
}

/// The titles of the primary relation, as owned strings.
fn collect_primary_titles(records: &Vec<MatchRecord>, req: &ListDetailsMapReq) -> (r: Vec<String>)
    ensures
        str_views(r@) == primary_titles(records@, *req),
{
    let mut titles: Vec<String> = Vec::new();
    let n = records.len();
    let mut i: usize = 0;
    proof {
        assert(records@.take(0) =~= Seq::<MatchRecord>::empty());
        reveal(Seq::filter);
        assert(str_views(titles@) =~= primary_titles(records@.take(0), *req));
    }
    while i < n
        invariant
            n == records@.len(),
            i <= n,
            str_views(titles@) == primary_titles(records@.take(i as int), *req),
        decreases n - i,
    {
        proof {
            assert(records@.take(i + 1) =~= records@.take(i as int).push(records@[i as int]));
            lemma_primary_titles_push(records@.take(i as int), *req, records@[i as int]);
        }
        if keeps_primary(&records[i], req) {
            let ghost prev = titles@;
            titles.push(records[i].map_title.clone());
            proof {
                crate::map_frequency::lemma_str_views_push(prev, titles@);
                assert(titles@[titles@.len() - 1]@ == records@[i as int].map_title@);
            }
        }
        i = i + 1;
    }
    proof {
        assert(records@.take(n as int) =~= records@);
    }
    titles
}

/// The count, timestamp extrema and latest record id of one primary map
/// group.
fn title_group_stats(records: &Vec<MatchRecord>, req: &ListDetailsMapReq, t: &String) -> (r: (
    usize,
    DateTime,
    DateTime,
    u64,
))
    requires
        primary_group(records@, *req, t@).len() > 0,
    ensures
        ({
            let g = primary_group(records@, *req, t@);
            let st = group_stamps(g);
            r.0 == g.len() && r.1 == spec_min_dt(st) && r.2 == spec_max_dt(st) && r.3
                == spec_latest(st).1
        }),
{
    let n = records.len();
    let mut i: usize = 0;
    let mut count: usize = 0;
    let mut min_date = DateTime { year: 0, month: 0, day: 0, hour: 0, minute: 0, second: 0 };
    let mut max_date = min_date;
    let mut latest_date = min_date;
    let mut latest_id: u64 = 0;
    proof {
        assert(records@.take(0) =~= Seq::<MatchRecord>::empty());
        reveal(Seq::filter);
        assert(primary_group(records@.take(0), *req, t@) =~= Seq::<MatchRecord>::empty());
    }
    while i < n
        invariant
            n == records@.len(),
            i <= n,
            count == primary_group(records@.take(i as int), *req, t@).len(),
            count > 0 ==> ({
                let st = group_stamps(primary_group(records@.take(i as int), *req, t@));
                min_date == spec_min_dt(st) && max_date == spec_max_dt(st) && latest_date
                    == spec_latest(st).0 && latest_id == spec_latest(st).1
            }),
        decreases n - i,
    {
        let ghost gpre = primary_group(records@.take(i as int), *req, t@);
        let ghost stpre = group_stamps(gpre);
        proof {
            assert(records@.take(i + 1) =~= records@.take(i as int).push(records@[i as int]));
            lemma_primary_group_push(records@.take(i as int), *req, t@, records@[i as int]);
        }
        let rec = &records[i];
        if keeps_primary(rec, req) && rec.map_title.eq(t) {
            let ghost gpost = primary_group(records@.take(i + 1), *req, t@);
            proof {
                broadcast use Seq::lemma_push_map_commute;

                assert(gpost == gpre.push(records@[i as int]));
                assert(group_stamps(gpost) == stpre.push(
                    (records@[i as int].recorded_at, records@[i as int].record_id),
                ));
                if count > 0 {
                    crate::aggregate::lemma_stamp_aggregates_push(
                        stpre,
                        (records@[i as int].recorded_at, records@[i as int].record_id),
                    );
                } else {
                    assert(gpre.len() == 0);
                    assert(stpre.len() == 0);
                    assert(group_stamps(gpost).len() == 1);
                }
            }
            if count == 0 {
                min_date = rec.recorded_at;
                max_date = rec.recorded_at;
                latest_date = rec.recorded_at;
                latest_id = rec.record_id;
                proof {
                    let st = group_stamps(gpost);
                    assert(st[0] == (records@[i as int].recorded_at, records@[i as int].record_id));
                    assert(spec_min_dt(st) == st[0].0);
                    assert(spec_max_dt(st) == st[0].0);
                    assert(spec_latest(st) == st[0]);
                }
            } else {
                if !min_date.le(&rec.recorded_at) {
                    min_date = rec.recorded_at;
                }
                if max_date.le(&rec.recorded_at) {
                    max_date = rec.recorded_at;
                }
                if latest_date.le(&rec.recorded_at) {
                    latest_date = rec.recorded_at;
                    latest_id = rec.record_id;
                }
            }
            count = count + 1;
        }
        i = i + 1;
    }
    proof {
        assert(records@.take(n as int) =~= records@);
    }
    (count, min_date, max_date, latest_id)
}

/// The canonical participant names of one map over the base relation, as
/// owned strings.
fn collect_group_names(records: &Vec<MatchRecord>, req: &ListDetailsMapReq, t: &String) -> (r: Vec<
    String,
>)
    ensures
        str_views(r@) == base_names(records@, *req, t@),
{
    let mut names: Vec<String> = Vec::new();
    let n = records.len();
    let mut i: usize = 0;
    proof {
        assert(records@.take(0) =~= Seq::<MatchRecord>::empty());
        assert(str_views(names@) =~= base_names(records@.take(0), *req, t@));
    }
    while i < n
        invariant
            n == records@.len(),
            i <= n,
            str_views(names@) == base_names(records@.take(i as int), *req, t@),
        decreases n - i,
    {
        proof {
            assert(records@.take(i + 1) =~= records@.take(i as int).push(records@[i as int]));
            lemma_base_names_push(records@.take(i as int), *req, t@, records@[i as int]);
        }
        let rec = &records[i];
        if keeps_base(rec, req) && rec.map_title.eq(t) {
            let ghost part_names = records@[i as int].participants@.map_values(
                |p: Participant| canon_of(p.display_name@),
            );
            let m = rec.participants.len();
            let mut k: usize = 0;
            proof {
                assert(part_names.take(0) =~= Seq::<Seq<char>>::empty());
                assert(str_views(names@) + part_names.take(0) =~= str_views(names@));
            }
            while k < m
                invariant
                    n == records@.len(),
                    i < n,
                    rec == records@[i as int],
                    m == rec.participants@.len(),
                    k <= m,
                    part_names == records@[i as int].participants@.map_values(
                        |p: Participant| canon_of(p.display_name@),
                    ),
                    part_names.len() == m,
                    str_views(names@) == base_names(records@.take(i as int), *req, t@)
                        + part_names.take(k as int),
                decreases m - k,
            {
                let cname = canonical_name(rec.participants[k].display_name.as_str());
                let ghost prev = names@;
                names.push(cname);
                proof {
                    crate::map_frequency::lemma_str_views_push(prev, names@);
                    assert(names@[names@.len() - 1]@ == canon_of(
                        records@[i as int].participants@[k as int].display_name@,
                    ));
                    assert(part_names[k as int] == canon_of(
                        records@[i as int].participants@[k as int].display_name@,
                    ));
                    assert(part_names.take(k + 1) =~= part_names.take(k as int).push(
                        part_names[k as int],
                    ));
                    assert(str_views(names@) =~= base_names(records@.take(i as int), *req, t@)
                        + part_names.take(k + 1));
                }
                k = k + 1;
            }
            proof {
                assert(part_names.take(m as int) =~= part_names);
            }
        } else {
            proof {
                assert(base_names(records@.take(i + 1), *req, t@) == base_names(
                    records@.take(i as int),
                    *req,
                    t@,
                ));
            }
        }
        i = i + 1;
    }
    proof {
        assert(records@.take(n as int) =~= records@);
    }
    names
}

/// A title listed by the primary relation has a non-empty primary group.
proof fn lemma_group_nonempty(recs: Seq<MatchRecord>, req: ListDetailsMapReq, t: Seq<char>)
    requires
        primary_titles(recs, req).contains(t),
    ensures
        primary_group(recs, req, t).len() > 0,
{
    broadcast use vstd::seq_lib::group_filter_ensures;

    let kept = recs.filter(|r: MatchRecord| spec_primary_keeps(r, req));
    let idx = choose|idx: int|
        0 <= idx < primary_titles(recs, req).len() && primary_titles(recs, req)[idx] == t;
    assert(primary_titles(recs, req)[idx] == kept[idx].map_title@);
    let rec = kept[idx];
    assert(spec_primary_keeps(rec, req)) by {
        recs.lemma_filter_pred(|r: MatchRecord| spec_primary_keeps(r, req), idx);
    }
    assert(recs.contains(rec)) by {
        assert(kept.contains(rec));
        recs.lemma_filter_contains_rev(|r: MatchRecord| spec_primary_keeps(r, req), rec);
    }
    let j = choose|j: int| 0 <= j < recs.len() && recs[j] == rec;
    recs.lemma_filter_contains(
        |r: MatchRecord| spec_primary_keeps(r, req) && r.map_title@ == t,
        j,
    );
    assert(primary_group(recs, req, t).contains(rec));
}


/// Answers the per-map statistics query. One row per distinct map title
/// of the primary (fully filtered) relation, carrying the match count,
/// the timestamp extrema, the most recent record id, and the top players
/// of that map over the base relation; ranked by descending count with
/// ties broken by ascending title, truncated to the page bound. The
/// envelope's total equals the number of returned rows.
pub fn get_map_freq(records: &Vec<MatchRecord>, req: &ListDetailsMapReq) -> (r: ListDetailsMapRes)
    requires
        records@.len() <= 0xFFFF_FFFF,
    ensures
        ms_views(r.data@) == spec_map_stats(records@, *req),
        r.meta.total == r.data@.len(),
        r.meta.status is Success,
        r.data@.len() <= MAP_STATS_LIMIT,
        forall|i: int, j: int|
            0 <= i < j < r.data@.len() ==> ((#[trigger] r.data@[j]).count < (
            #[trigger] r.data@[i]).count || (r.data@[j].count == r.data@[i].count && seq_char_lt(
                r.data@[i].title@,
                r.data@[j].title@,
            ))),
        forall|i: int| 0 <= i < r.data@.len() ==> (#[trigger] r.data@[i]).count > 0,
        forall|i: int|
            0 <= i < r.data@.len() ==> (#[trigger] r.data@[i]).top_players@.len()
                <= TOP_PLAYERS_PER_MAP,
{
    broadcast use vstd::seq_lib::group_filter_ensures;

    let meta = ResponseMetaBuilder::new();
    let titles = collect_primary_titles(records, req);
    let keys = crate::topk::distinct_values(&titles);
    let ghost keys_v = str_views(keys@);
    proof {
        assert(keys_v == dedup_first(primary_titles(records@, *req)));
    }
    let mut rows: Vec<MapStats> = Vec::new();
    let kn = keys.len();
    let mut j: usize = 0;
    proof {
        assert(keys_v.len() == keys@.len());
        assert(ms_views(rows@) =~= map_stats_rows(records@, *req, keys_v.take(0)));
    }
    while j < kn
        invariant
            kn == keys@.len(),
            j <= kn,
            records@.len() <= 0xFFFF_FFFF,
            keys_v == str_views(keys@),
            keys_v == dedup_first(primary_titles(records@, *req)),
            ms_views(rows@) == map_stats_rows(records@, *req, keys_v.take(j as int)),
        decreases kn - j,
    {
        let ghost t = keys_v[j as int];
        proof {
            assert(keys_v[j as int] == keys@[j as int]@);
            assert(keys_v.contains(t));
            lemma_dedup_first_contains(primary_titles(records@, *req), t);
            lemma_group_nonempty(records@, *req, t);
            assert(primary_group(records@, *req, t).len() <= records@.len());
        }
        let st = title_group_stats(records, req, &keys[j]);
        let names = collect_group_names(records, req, &keys[j]);
        let top = top_k_frequency(&names, TOP_PLAYERS_PER_MAP);
        let row = MapStats {
            title: keys[j].clone(),
            count: st.0 as u32,
            min_date: st.1,
            max_date: st.2,
            latest_replay_id: st.3,
            top_players: top,
        };
        proof {
            assert(row@ == map_stat_of(records@, *req, t));
        }
        let ghost prev = rows@;
        rows.push(row);
        proof {
            let lhs = ms_views(rows@);
            let rhs = map_stats_rows(records@, *req, keys_v.take(j + 1));
            assert(ms_views(prev).len() == prev.len());
            assert(map_stats_rows(records@, *req, keys_v.take(j as int)).len() == j);
            assert(prev.len() == j);
            assert(lhs.len() == j + 1);
            assert(rhs.len() == j + 1);
            assert(keys_v.take(j + 1) =~= keys_v.take(j as int).push(t));
            assert forall|u: int| 0 <= u < lhs.len() implies lhs[u] == rhs[u] by {
                assert(lhs[u] == rows@[u]@);
                assert(rhs[u] == map_stat_of(records@, *req, keys_v.take(j + 1)[u]));
                if u < prev.len() {
                    assert(rows@[u] == prev[u]);
                    assert(ms_views(prev)[u] == prev[u]@);
                    assert(map_stats_rows(records@, *req, keys_v.take(j as int))[u] == map_stat_of(
                        records@,
                        *req,
                        keys_v.take(j as int)[u],
                    ));
                    assert(keys_v.take(j + 1)[u] == keys_v.take(j as int)[u]);
                } else {
                    assert(keys_v.take(j + 1)[u] == t);
                }
            }
            assert(lhs =~= rhs);
        }
        j = j + 1;
    }
    proof {
        assert(keys_v.take(kn as int) =~= keys_v);
    }
    let ghost rows_v = rows@;
    proof {
        crate::aggregate::lemma_dedup_first_no_duplicates(primary_titles(records@, *req));
        assert forall|a: int, b: int| 0 <= a < b < rows_v.len() implies (MapStats::before(
            #[trigger] rows_v[a],
            #[trigger] rows_v[b],
        ) || MapStats::before(rows_v[b], rows_v[a])) by {
            assert(ms_views(rows_v)[a] == rows_v[a]@);
            assert(ms_views(rows_v)[b] == rows_v[b]@);
            assert(map_stats_rows(records@, *req, keys_v)[a] == map_stat_of(
                records@,
                *req,
                keys_v[a],
            ));
            assert(map_stats_rows(records@, *req, keys_v)[b] == map_stat_of(
                records@,
                *req,
                keys_v[b],
            ));
            assert(rows_v[a]@.title == keys_v[a]);
            assert(rows_v[b]@.title == keys_v[b]);
            assert(keys_v[a] != keys_v[b]);
            lemma_seq_char_connected(rows_v[a].title@, rows_v[b].title@);
        }
    }
    let mut ranked = rank_rows(rows);
    proof {
        crate::rank::lemma_sort_view_bridge::<MapStats, MapStatsView>(
            rows_v,
            |m: MapStats| m@,
            msv_order(),
        );
        assert(rows_v.map_values(|m: MapStats| m@) =~= ms_views(rows_v));
        crate::rank::lemma_sort_by_rank_strict::<MapStats>(rows_v);
        crate::rank::lemma_sort_by_rank_len(rows_v);
    }
    limit_rows(&mut ranked, MAP_STATS_LIMIT);
    let ghost sorted_v = sort_by(ms_views(rows_v), msv_order());
    let ghost n_take = vstd::math::min(MAP_STATS_LIMIT as int, sorted_v.len() as int);
    proof {
        assert(sort_by_rank(rows_v).map_values(|m: MapStats| m@) =~= ms_views(sort_by_rank(rows_v)));
        assert(ms_views(sort_by_rank(rows_v)).len() == sort_by_rank(rows_v).len());
        assert(ms_views(ranked@) =~= sorted_v.take(n_take)) by {
            assert forall|u: int| 0 <= u < ranked@.len() implies ms_views(ranked@)[u]
                == sorted_v.take(n_take)[u] by {
                assert(ranked@[u] == sort_by_rank(rows_v)[u]);
                assert(ms_views(ranked@)[u] == ranked@[u]@);
                assert(ms_views(sort_by_rank(rows_v))[u] == sort_by_rank(rows_v)[u]@);
            }
            assert(ms_views(ranked@).len() == ranked@.len());
        }
        assert(ms_views(ranked@) == spec_map_stats(records@, *req));
        assert forall|i: int, j2: int| 0 <= i < j2 < ranked@.len() implies ((
        #[trigger] ranked@[j2]).count < (#[trigger] ranked@[i]).count || (ranked@[j2].count
            == ranked@[i].count && seq_char_lt(ranked@[i].title@, ranked@[j2].title@))) by {
            assert(ranked@[i] == sort_by_rank(rows_v)[i]);
            assert(ranked@[j2] == sort_by_rank(rows_v)[j2]);
            assert(MapStats::before(sort_by_rank(rows_v)[i], sort_by_rank(rows_v)[j2]));
        }
        lemma_rows_grounded(records@, *req, rows_v);
        crate::rank::lemma_sort_by_rank_multiset(rows_v);
        assert forall|i: int| 0 <= i < ranked@.len() implies ((#[trigger] ranked@[i]).count > 0
            && ranked@[i].top_players@.len() <= TOP_PLAYERS_PER_MAP) by {
            broadcast use vstd::seq_lib::group_to_multiset_ensures;

            assert(ranked@[i] == sort_by_rank(rows_v)[i]);
            assert(sort_by_rank(rows_v).contains(ranked@[i]));
            assert(sort_by_rank(rows_v).to_multiset().contains(ranked@[i]));
            assert(rows_v.to_multiset().contains(ranked@[i]));
            assert(rows_v.contains(ranked@[i]));
            let u = choose|u: int| 0 <= u < rows_v.len() && rows_v[u] == ranked@[i];
            assert(rows_v[u].count > 0);
        }
    }
    let total_rows = ranked.len();
    ListDetailsMapRes { meta: meta.with_total(total_rows).build(), data: ranked }
}

/// Every unranked row is the statistics row of a listed map title: its
/// count is the size of a non-empty group and its top list is bounded.
proof fn lemma_rows_grounded(recs: Seq<MatchRecord>, req: ListDetailsMapReq, rows_v: Seq<MapStats>)
    requires
        recs.len() <= 0xFFFF_FFFF,
        ms_views(rows_v) == map_stats_rows(recs, req, dedup_first(primary_titles(recs, req))),
    ensures
        forall|u: int|
            0 <= u < rows_v.len() ==> (#[trigger] rows_v[u]).count > 0
                && rows_v[u].top_players@.len() <= TOP_PLAYERS_PER_MAP,
{
    broadcast use vstd::seq_lib::group_filter_ensures;

    let keys = dedup_first(primary_titles(recs, req));
    assert forall|u: int| 0 <= u < rows_v.len() implies (#[trigger] rows_v[u]).count > 0
        && rows_v[u].top_players@.len() <= TOP_PLAYERS_PER_MAP by {
        assert(ms_views(rows_v).len() == rows_v.len());
        assert(ms_views(rows_v)[u] == rows_v[u]@);
        assert(map_stats_rows(recs, req, keys)[u] == map_stat_of(recs, req, keys[u]));
        assert(keys.contains(keys[u]));
        lemma_dedup_first_contains(primary_titles(recs, req), keys[u]);
        lemma_group_nonempty(recs, req, keys[u]);
        let g = primary_group(recs, req, keys[u]);
        assert(g.len() <= recs.len());
        assert(rows_v[u]@.count == g.len() as u32);
        crate::topk::lemma_top_k_sound(base_names(recs, req, keys[u]), TOP_PLAYERS_PER_MAP as int);
        assert(rows_v[u]@.top_players.len() <= TOP_PLAYERS_PER_MAP);
        assert(str_views(rows_v[u].top_players@).len() == rows_v[u].top_players@.len());
    }
}


/// The tournament prefix sometimes present in recorded map titles.
pub open spec fn esl_tag() -> Seq<char> {
    seq!['[', 'E', 'S', 'L', ']', ' ']
}

/// The title with every occurrence of the tournament prefix removed,
/// scanning left to right.
pub open spec fn strip_esl(s: Seq<char>) -> Seq<char>
    decreases s.len(),
{
    if s.len() >= 6 && s.subrange(0, 6) == esl_tag() {
        strip_esl(s.subrange(6, s.len() as int))
    } else if s.len() == 0 {
        s
    } else {
        seq![s[0]] + strip_esl(s.subrange(1, s.len() as int))
    }
}

/// The title with spaces turned into underscores, the form links use.
pub open spec fn underscore_spaces(s: Seq<char>) -> Seq<char> {
    s.map_values(
        |c: char|
            if c == ' ' {
                '_'
            } else {
                c
            },
    )
}

/// The cleaned title: tournament prefixes removed, spaces underscored.
pub open spec fn clean_title_of(s: Seq<char>) -> Seq<char> {
    underscore_spaces(strip_esl(s))
}

/// Underscoring distributes over concatenation.
proof fn lemma_underscore_concat(a: Seq<char>, b: Seq<char>)
    ensures
        underscore_spaces(a + b) == underscore_spaces(a) + underscore_spaces(b),
{
    let lhs = underscore_spaces(a + b);
    let rhs = underscore_spaces(a) + underscore_spaces(b);
    assert forall|u: int| 0 <= u < lhs.len() implies lhs[u] == rhs[u] by {
        if u < a.len() {
            assert((a + b)[u] == a[u]);
            assert(underscore_spaces(a)[u] == (if a[u] == ' ' {
                '_'
            } else {
                a[u]
            }));
        } else {
            assert((a + b)[u] == b[u - a.len()]);
            assert(underscore_spaces(b)[u - a.len()] == (if b[u - a.len()] == ' ' {
                '_'
            } else {
                b[u - a.len()]
            }));
        }
    }
    assert(lhs =~= rhs);
}

/// The tournament prefix occurs at position `i` of the title.
fn esl_at(s: &str, i: usize) -> (r: bool)
    requires
        i + 6 <= s@.len(),
        i + 6 <= usize::MAX,
    ensures
        r == (s@.subrange(i as int, i + 6) == esl_tag()),
{
    let r = s.get_char(i) == '[' && s.get_char(i + 1) == 'E' && s.get_char(i + 2) == 'S'
        && s.get_char(i + 3) == 'L' && s.get_char(i + 4) == ']' && s.get_char(i + 5) == ' ';
    proof {
        let sub = s@.subrange(i as int, i + 6);
        assert(sub[0] == s@[i as int]);
        assert(sub[1] == s@[i + 1]);
        assert(sub[2] == s@[i + 2]);
        assert(sub[3] == s@[i + 3]);
        assert(sub[4] == s@[i + 4]);
        assert(sub[5] == s@[i + 5]);
        if r {
            assert(sub =~= esl_tag());
        } else {
            assert(sub != esl_tag());
        }
    }
    r
}

impl MapStats {
    /// The map title in the form map links use: tournament prefixes
    /// removed, spaces underscored.
    pub fn clean_map_title(&self) -> (r: String)
        ensures
            r@ == clean_title_of(self.title@),
    {
        let s = self.title.as_str();
        let ghost sv = s@;
        let n = s.unicode_len();
        let mut out: Vec<char> = Vec::new();
        let mut i: usize = 0;
        proof {
            assert(sv.subrange(0, n as int) =~= sv);
        }
        while i < n
            invariant
                n == sv.len(),
                sv == s@,
                i <= n,
                out@ + underscore_spaces(strip_esl(sv.subrange(i as int, n as int)))
                    == underscore_spaces(strip_esl(sv)),
            decreases n - i,
        {
            let ghost rest = sv.subrange(i as int, n as int);
            if n - i >= 6 && esl_at(s, i) {
                proof {
                    assert(rest.subrange(0, 6) =~= sv.subrange(i as int, i + 6));
                    assert(rest.len() >= 6);
                    assert(strip_esl(rest) == strip_esl(rest.subrange(6, rest.len() as int)));
                    assert(rest.subrange(6, rest.len() as int) =~= sv.subrange(i + 6, n as int));
                }
                i = i + 6;
            } else {
                let c = s.get_char(i);
                let mapped = if c == ' ' {
                    '_'
                } else {
                    c
                };
                let ghost prev = out@;
                out.push(mapped);
                proof {
                    if rest.len() >= 6 {
                        assert(rest.subrange(0, 6) =~= sv.subrange(i as int, i + 6));
                        assert(rest.subrange(0, 6) != esl_tag());
                    }
                    assert(rest[0] == sv[i as int]);
                    assert(strip_esl(rest) == seq![rest[0]] + strip_esl(
                        rest.subrange(1, rest.len() as int),
                    ));
                    assert(rest.subrange(1, rest.len() as int) =~= sv.subrange(i + 1, n as int));
                    lemma_underscore_concat(
                        seq![rest[0]],
                        strip_esl(sv.subrange(i + 1, n as int)),
                    );
                    assert(underscore_spaces(seq![rest[0]]) =~= seq![mapped]);
                    assert(out@ =~= prev.push(mapped));
                    assert(out@ + underscore_spaces(strip_esl(sv.subrange(i + 1, n as int)))
                        =~= underscore_spaces(strip_esl(sv)));
                }
                i = i + 1;
            }
        }
        proof {
            assert(sv.subrange(n as int, n as int) =~= Seq::<char>::empty());
            assert(underscore_spaces(strip_esl(Seq::<char>::empty())) =~= Seq::<char>::empty());
            assert(out@ =~= underscore_spaces(strip_esl(sv)));
        }
        crate::datetime::string_from_chars(&out)
    }

    /// The address of the map's page on the community wiki: the cleaned,
    /// percent-encoded title under the wiki's base address.
    pub fn liquipedia_map_link(&self) -> (r: String)
        ensures
            r@ == "https://liquipedia.net/starcraft2/"@ + crate::text::url_encoded_of(
                clean_title_of(self.title@),
            ),
    {
        let clean = self.clean_map_title();
        let enc = crate::text::url_encode(clean.as_str());
        let mut out = String::from_str("https://liquipedia.net/starcraft2/");
        out.append(enc.as_str());
        out
    }
}


/// The enrichment of a map row never invents data: every returned row's
/// group is non-empty, its latest record id is the id of an actual record
/// of that group, and every listed top player occurs among the map's
/// participant names. An inner join underlies this: a title without
/// auxiliary data would simply not appear.
pub proof fn lemma_map_stats_enriched(recs: Seq<MatchRecord>, req: ListDetailsMapReq, i: int)
    requires
        0 <= i < spec_map_stats(recs, req).len(),
    ensures
        ({
            let row = spec_map_stats(recs, req)[i];
            &&& primary_group(recs, req, row.title).len() > 0
            &&& exists|j: int|
                0 <= j < primary_group(recs, req, row.title).len() && (#[trigger] primary_group(
                    recs,
                    req,
                    row.title,
                )[j]).record_id == row.latest_replay_id
            &&& forall|t: int|
                0 <= t < row.top_players.len() ==> count_of(
                    base_names(recs, req, row.title),
                    #[trigger] row.top_players[t],
                ) > 0
            &&& forall|j: int|
                0 <= j < primary_group(recs, req, row.title).len() ==> dt_le(
                    row.min_date,
                    (#[trigger] primary_group(recs, req, row.title)[j]).recorded_at,
                ) && dt_le(primary_group(recs, req, row.title)[j].recorded_at, row.max_date)
        }),
{
    let keys = dedup_first(primary_titles(recs, req));
    let rows = map_stats_rows(recs, req, keys);
    let ranked = sort_by(rows, msv_order());
    let row = spec_map_stats(recs, req)[i];
    assert(row == ranked[i]);
    crate::rank::lemma_sort_by_element(rows, msv_order(), i);
    let u = choose|u: int| 0 <= u < rows.len() && rows[u] == ranked[i];
    assert(rows[u] == map_stat_of(recs, req, keys[u]));
    assert(row.title == keys[u]);
    assert(keys.contains(keys[u]));
    lemma_dedup_first_contains(primary_titles(recs, req), keys[u]);
    lemma_group_nonempty(recs, req, keys[u]);
    let g = primary_group(recs, req, row.title);
    let st = group_stamps(g);
    assert(st.len() == g.len());
    crate::aggregate::lemma_latest_in(st);
    let j = choose|j: int| 0 <= j < st.len() && st[j] == spec_latest(st);
    assert(st[j] == (g[j].recorded_at, g[j].record_id));
    assert(g[j].record_id == row.latest_replay_id);
    crate::topk::lemma_top_k_sound(base_names(recs, req, row.title), TOP_PLAYERS_PER_MAP as int);
    crate::aggregate::lemma_min_dt_in(st);
    crate::aggregate::lemma_max_dt_in(st);
    assert forall|j2: int| 0 <= j2 < g.len() implies dt_le(
        row.min_date,
        (#[trigger] g[j2]).recorded_at,
    ) && dt_le(g[j2].recorded_at, row.max_date) by {
        assert(row.min_date == spec_min_dt(st));
        assert(row.max_date == spec_max_dt(st));
        assert(st[j2] == (g[j2].recorded_at, g[j2].record_id));
        assert(st[j2].0 == g[j2].recorded_at);
        assert(dt_le(spec_min_dt(st), st[j2].0));
        assert(dt_le(st[j2].0, spec_max_dt(st)));
    }
}

} // verus!
