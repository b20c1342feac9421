//! The per-player statistics query: records are expanded to one row per
//! participant; rows are filtered by name, file name, identifier and date
//! range — with automated participants excluded unless a name filter is
//! given explicitly — grouped by account identity and canonical name;
//! counted and aggregated; enriched with the latest record id and the top
//! maps per player; ranked by descending count; and truncated to the page
//! bound.

use vstd::prelude::*;

verus! {

use crate::aggregate::{
    Stamp,
    dedup_first,
    lemma_dedup_first_contains,
    spec_latest,
    spec_max_dt,
    spec_min_dt,
    str_views,
};
use crate::datetime::{Date, DateTime, default_max_date, default_min_date};
use crate::maps::in_date_range;
use crate::meta::{ResponseMeta, ResponseMetaBuilder};
use crate::rank::{RankOrd, limit_rows, rank_rows, sort_by, sort_by_rank};
use crate::records::{MatchRecord, ParticipantRow, RowView, ToonIdentity, explode, row_views, spec_explode};
use crate::text::{
    canon_of,
    canonical_name,
    clan_of,
    clan_tag,
    contains_ci,
    contains_seq,
    dec_of,
    lemma_seq_char_connected,
    lemma_seq_char_lt_irrefl,
    lemma_seq_char_lt_trans,
    opt_str_view,
    seq_char_lt,
    str_contains,
    str_contains_ci,
    str_lt,
    u64_to_dec_string,
    url_decode,
    url_decoded_of,
};
use crate::topk::{spec_top_k, top_k_frequency};

/// The page bound of the player-statistics listing, enforced server-side.
pub const PLAYER_STATS_LIMIT: usize = 1000;

/// How many top maps each player row carries.
pub const TOP_MAPS_PER_PLAYER: usize = 5;

/// Filters of the player-statistics query; an empty string leaves the
/// corresponding filter out.
#[derive(Debug)]
pub struct ListDetailsPlayerReq {
    /// Case-insensitive substring of the canonical player name. When
    /// empty, automated participants are excluded instead.
    pub name: String,
    /// Case-insensitive substring of the replay file name.
    pub file_name: String,
    /// Exact decimal record identifier.
    pub replay_id: String,
    /// Inclusive lower bound on the recorded date.
    pub file_min_date: Date,
    /// Exclusive upper bound on the recorded date.
    pub file_max_date: Date,
}

impl Clone for ListDetailsPlayerReq {
    fn clone(&self) -> (r: Self)
        ensures
            r == *self,
    {
        ListDetailsPlayerReq {
            name: self.name.clone(),
            file_name: self.file_name.clone(),
            replay_id: self.replay_id.clone(),
            file_min_date: self.file_min_date,
            file_max_date: self.file_max_date,
        }
    }
}

impl Default for ListDetailsPlayerReq {
    /// The open query: no text filters, and the documented default date
    /// range from the fixed epoch floor to the current date.
    fn default() -> (r: Self)
        ensures
            r.name@.len() == 0,
            r.file_name@.len() == 0,
            r.replay_id@.len() == 0,
            r.file_min_date == (Date { year: 2000, month: 1, day: 1 }),
            r.file_max_date.valid(),
    {
        ListDetailsPlayerReq {
            name: String::new(),
            file_name: String::new(),
            replay_id: String::new(),
            file_min_date: default_min_date(),
            file_max_date: default_max_date(),
        }
    }
}

impl ListDetailsPlayerReq {
    /// The documented floor offered for open-ended date filters.
    pub fn default_min_date() -> (r: Date)
        ensures
            r == (Date { year: 2000, month: 1, day: 1 }),
            r.valid(),
    {
        default_min_date()
    }

    /// The documented ceiling offered for open-ended date filters: the
    /// current local date.
    pub fn default_max_date() -> (r: Date)
        ensures
            r.valid(),
    {
        default_max_date()
    }

    /// The request with its text filters percent-decoded, as they arrive
    /// from a query string. The identifier and the dates are taken as
    /// they are.
    pub fn from_escaped(self) -> (r: Self)
        ensures
            r.name@ == url_decoded_of(self.name@),
            r.file_name@ == url_decoded_of(self.file_name@),
            r.replay_id == self.replay_id,
            r.file_min_date == self.file_min_date,
            r.file_max_date == self.file_max_date,
    {
        ListDetailsPlayerReq {
            name: url_decode(self.name.as_str()),
            file_name: url_decode(self.file_name.as_str()),
            replay_id: self.replay_id,
            file_min_date: self.file_min_date,
            file_max_date: self.file_max_date,
        }
    }
}

/// The player-statistics response: envelope plus ranked rows.
#[derive(Debug, Default)]
pub struct ListDetailsPlayerRes {
    /// Metadata of the response.
    pub meta: ResponseMeta,
    /// The data of the response.
    pub data: Vec<PlayerStats>,
}

impl ListDetailsPlayerRes {
    /// The structurally valid envelope returned when the query fails
    /// upstream: an error status carrying the message, zero rows, and no
    /// data. Partial results are never returned.
    pub fn error(message: String) -> (r: Self)
        ensures
            r.meta.status == (crate::meta::ResponseStatus::Error { message }),
            r.meta.total == 0,
            r.data@.len() == 0,
    {
        ListDetailsPlayerRes {
            meta: ResponseMetaBuilder::new().with_error(message).build(),
            data: Vec::new(),
        }
    }
}

/// Per-race aggregate counts for one player.
#[derive(Debug, Clone, Copy, PartialEq, Eq, Structural)]
pub struct PlayerRaceStats {
    /// The race played.
    pub race: u8,
    /// The number of rows with this race.
    pub count: u32,
    /// The number of wins.
    pub wins: u32,
    /// The number of defeats.
    pub defeats: u32,
    /// The number of undecided outcomes.
    pub undecided: u32,
    /// The number of ties.
    pub ties: u32,
}

/// One ranked row of per-player statistics.
#[derive(Debug)]
pub struct PlayerStats {
    /// The clan tag seen on the group's first row, when the display name
    /// carries one.
    pub clan: Option<String>,
    /// The canonical name of the player.
    pub name: String,
    /// The number of participant rows of this player.
    pub count: u32,
    /// The earliest recorded timestamp among those rows.
    pub min_date: DateTime,
    /// The latest recorded timestamp among those rows.
    pub max_date: DateTime,
    /// The record id of the most recently recorded match of this player.
    pub latest_replay_id: u64,
    /// The most frequent maps of this player, at most five, most
    /// frequent first.
    pub top_maps: Vec<String>,
    /// Per-race statistics; not computed by this query.
    pub race_stats: Vec<PlayerRaceStats>,
    /// Region number of the account.
    pub player_toon_region: u64,
    /// Program (game) identifier.
    pub player_toon_program_id: u64,
    /// Realm number within the region.
    pub player_toon_realm: u64,
    /// Account identifier within the realm.
    pub player_toon_id: u64,
}

/// The mathematical content of a [`PlayerStats`] row.
pub ghost struct PlayerStatsView {
    /// The clan tag seen on the group's first row.
    pub clan: Option<Seq<char>>,
    /// The canonical name of the player.
    pub name: Seq<char>,
    /// The number of participant rows of this player.
    pub count: u32,
    /// The earliest recorded timestamp among those rows.
    pub min_date: DateTime,
    /// The latest recorded timestamp among those rows.
    pub max_date: DateTime,
    /// The record id of the most recently recorded match of this player.
    pub latest_replay_id: u64,
    /// The most frequent maps of this player, most frequent first.
    pub top_maps: Seq<Seq<char>>,
    /// Per-race statistics; not computed by this query.
    pub race_stats: Seq<PlayerRaceStats>,
    /// The account identity of the player.
    pub toon: ToonIdentity,
}

impl View for PlayerStats {
    type V = PlayerStatsView;

    open spec fn view(&self) -> PlayerStatsView {
        PlayerStatsView {
            clan: opt_str_view(self.clan),
            name: self.name@,
            count: self.count,
            min_date: self.min_date,
            max_date: self.max_date,
            latest_replay_id: self.latest_replay_id,
            top_maps: str_views(self.top_maps@),
            race_stats: self.race_stats@,
            toon: ToonIdentity {
                region: self.player_toon_region,
                realm: self.player_toon_realm,
                program_id: self.player_toon_program_id,
                id: self.player_toon_id,
            },
        }
    }
}

/// The views of a sequence of player-statistics rows.
pub open spec fn ps_views(s: Seq<PlayerStats>) -> Seq<PlayerStatsView> {
    s.map_values(|p: PlayerStats| p@)
}

impl PlayerStats {
    /// The visible label of the player's profile link: region, realm and
    /// account id separated by slashes.
    pub fn blizzard_profile_link_title(&self) -> (r: String)
        ensures
            r@ == dec_of(self.player_toon_region as int) + seq!['/'] + dec_of(
                self.player_toon_realm as int,
            ) + seq!['/'] + dec_of(self.player_toon_id as int),
    {
        let mut out = u64_to_dec_string(self.player_toon_region);
        out.append("/");
        let realm = u64_to_dec_string(self.player_toon_realm);
        out.append(realm.as_str());
        out.append("/");
        let id = u64_to_dec_string(self.player_toon_id);
        out.append(id.as_str());
        proof {
            reveal_strlit("/");
            assert(out@ =~= dec_of(self.player_toon_region as int) + seq!['/'] + dec_of(
                self.player_toon_realm as int,
            ) + seq!['/'] + dec_of(self.player_toon_id as int));
        }
        out
    }

    /// The address of the player's profile on the game's website.
    pub fn blizzard_profile_link_href(&self) -> (r: String)
        ensures
            r@ == "https://starcraft2.blizzard.com/en-us/profile/"@ + dec_of(
                self.player_toon_region as int,
            ) + seq!['/'] + dec_of(self.player_toon_realm as int) + seq!['/'] + dec_of(
                self.player_toon_id as int,
            ),
    {
        let mut out = String::from_str("https://starcraft2.blizzard.com/en-us/profile/");
        let tail = self.blizzard_profile_link_title();
        out.append(tail.as_str());
        proof {
            assert(out@ =~= "https://starcraft2.blizzard.com/en-us/profile/"@ + dec_of(
                self.player_toon_region as int,
            ) + seq!['/'] + dec_of(self.player_toon_realm as int) + seq!['/'] + dec_of(
                self.player_toon_id as int,
            ));
        }
        out
    }
}

/// The grouping key of player statistics: account identity plus canonical
/// name.
pub struct PlayerKey {
    /// The account identity.
    pub toon: ToonIdentity,
    /// The canonical name.
    pub name: String,
}

/// The mathematical content of a [`PlayerKey`].
pub ghost struct PlayerKeyView {
    /// The account identity.
    pub toon: ToonIdentity,
    /// The canonical name.
    pub name: Seq<char>,
}

impl View for PlayerKey {
    type V = PlayerKeyView;

    open spec fn view(&self) -> PlayerKeyView {
        PlayerKeyView { toon: self.toon, name: self.name@ }
    }
}

/// The views of a sequence of player keys.
pub open spec fn pk_views(s: Seq<PlayerKey>) -> Seq<PlayerKeyView> {
    s.map_values(|k: PlayerKey| k@)
}

/// The name of an automated participant holds this token.
pub open spec fn ai_token() -> Seq<char> {
    seq!['A', '.', 'I']
}

/// The name of a flagged participant holds this token.
pub open spec fn cheater_token() -> Seq<char> {
    seq!['C', 'h', 'e', 'a', 't', 'e', 'r', ' ']
}

/// The canonical name marks an automated or flagged participant.
pub open spec fn is_automated(name: Seq<char>) -> bool {
    contains_seq(name, ai_token()) || contains_seq(name, cheater_token())
}

/// The row passes the date, file-name, identifier and name filters. With
/// a name filter, the canonical name must hold it case-insensitively —
/// which admits automated participants when asked for. Without one,
/// automated participants are excluded.
pub open spec fn row_keeps(rv: RowView, req: ListDetailsPlayerReq) -> bool {
    &&& in_date_range(rv.recorded_at, req.file_min_date, req.file_max_date)
    &&& (req.file_name@.len() == 0 || contains_ci(rv.file_name, req.file_name@))
    &&& (req.replay_id@.len() == 0 || dec_of(rv.record_id as int) == req.replay_id@)
    &&& (if req.name@.len() > 0 {
        contains_ci(canon_of(rv.display_name), req.name@)
    } else {
        !is_automated(canon_of(rv.display_name))
    })
}

/// The grouping key of a row.
pub open spec fn key_of(rv: RowView) -> PlayerKeyView {
    PlayerKeyView { toon: rv.toon, name: canon_of(rv.display_name) }
}

/// The keys of the primary relation, one per kept row, in scan order.
pub open spec fn primary_keys(rows: Seq<RowView>, req: ListDetailsPlayerReq) -> Seq<PlayerKeyView> {
    rows.filter(|rv: RowView| row_keeps(rv, req)).map_values(|rv: RowView| key_of(rv))
}

/// The primary group of one player key: the kept rows of that player.
pub open spec fn key_group(rows: Seq<RowView>, req: ListDetailsPlayerReq, k: PlayerKeyView) -> Seq<
    RowView,
> {
    rows.filter(|rv: RowView| row_keeps(rv, req) && key_of(rv) == k)
}

/// The timestamp and record id of each row of a group.
pub open spec fn row_stamps(g: Seq<RowView>) -> Seq<Stamp> {
    g.map_values(|rv: RowView| (rv.recorded_at, rv.record_id))
}

/// The map titles of a group, the column the top-maps ranking counts.
pub open spec fn group_titles(g: Seq<RowView>) -> Seq<Seq<char>> {
    g.map_values(|rv: RowView| rv.map_title)
}

/// The statistics row of one player key.
pub open spec fn player_stat_of(rows: Seq<RowView>, req: ListDetailsPlayerReq, k: PlayerKeyView) -> PlayerStatsView {
    let g = key_group(rows, req, k);
    let st = row_stamps(g);
    PlayerStatsView {
        clan: clan_of(g[0].display_name),
        name: k.name,
        count: g.len() as u32,
        min_date: spec_min_dt(st),
        max_date: spec_max_dt(st),
        latest_replay_id: spec_latest(st).1,
        top_maps: spec_top_k(group_titles(g), TOP_MAPS_PER_PLAYER as int),
        race_stats: Seq::empty(),
        toon: k.toon,
    }
}

/// The unranked statistics rows of the given player keys.
pub open spec fn player_stats_rows(
    rows: Seq<RowView>,
    req: ListDetailsPlayerReq,
    keys: Seq<PlayerKeyView>,
) -> Seq<PlayerStatsView> {
    keys.map_values(|k: PlayerKeyView| player_stat_of(rows, req, k))
}

/// Strict order on account identities, by region, realm, program and id.
pub open spec fn toon_lt(a: ToonIdentity, b: ToonIdentity) -> bool {
    if a.region != b.region {
        a.region < b.region
    } else if a.realm != b.realm {
        a.realm < b.realm
    } else if a.program_id != b.program_id {
        a.program_id < b.program_id
    } else {
        a.id < b.id
    }
}

/// Ranking order of player rows: greater counts first, then lesser names
/// first, then lesser account identities first.
pub open spec fn psv_before(a: PlayerStatsView, b: PlayerStatsView) -> bool {
    if a.count != b.count {
        a.count > b.count
    } else if a.name != b.name {
        seq_char_lt(a.name, b.name)
    } else {
        toon_lt(a.toon, b.toon)
    }
}

/// The ranking order as a function value, for the specification-level
/// sort.
pub open spec fn psv_order() -> spec_fn(PlayerStatsView, PlayerStatsView) -> bool {
    |a: PlayerStatsView, b: PlayerStatsView| psv_before(a, b)
}

/// The whole query, as a function: one row per distinct player key of the
/// primary relation over the expanded snapshot, ranked by descending
/// count with ties broken by ascending name and account identity,
/// truncated to the page bound.
pub open spec fn spec_player_stats(recs: Seq<MatchRecord>, req: ListDetailsPlayerReq) -> Seq<
    PlayerStatsView,
> {
    let rows = spec_explode(recs);
    let keys = dedup_first(primary_keys(rows, req));
    let ranked = sort_by(player_stats_rows(rows, req, keys), psv_order());
    let n = if (PLAYER_STATS_LIMIT as int) < ranked.len() {
        PLAYER_STATS_LIMIT as int
    } else {
        ranked.len() as int
    };
    ranked.take(n)
}

impl RankOrd for PlayerStats {
    open spec fn before(a: PlayerStats, b: PlayerStats) -> bool {
        psv_before(a@, b@)
    }

    proof fn lemma_weak_order(a: PlayerStats, b: PlayerStats, c: PlayerStats) {
        lemma_seq_char_lt_trans(a.name@, b.name@, c.name@);
        lemma_seq_char_lt_irrefl(a.name@);
        lemma_seq_char_connected(a.name@, b.name@);
        lemma_seq_char_connected(b.name@, c.name@);
        lemma_seq_char_connected(a.name@, c.name@);
    }

    fn cmp_before(a: &PlayerStats, b: &PlayerStats) -> (r: bool) {
        if a.count != b.count {
            a.count > b.count
        } else if str_lt(a.name.as_str(), b.name.as_str()) {
            proof {
                lemma_seq_char_lt_irrefl(a.name@);
            }
            true
        } else if str_lt(b.name.as_str(), a.name.as_str()) {
            proof {
                lemma_seq_char_lt_irrefl(b.name@);
            }
            false
        } else {
            proof {
                lemma_seq_char_connected(a.name@, b.name@);
            }
            if a.player_toon_region != b.player_toon_region {
                a.player_toon_region < b.player_toon_region
            } else if a.player_toon_realm != b.player_toon_realm {
                a.player_toon_realm < b.player_toon_realm
            } else if a.player_toon_program_id != b.player_toon_program_id {
                a.player_toon_program_id < b.player_toon_program_id
            } else {
                a.player_toon_id < b.player_toon_id
            }
        }
    }
}


/// Appending a row extends the primary keys by its key exactly when it is
/// kept.
proof fn lemma_primary_keys_push(rows: Seq<RowView>, req: ListDetailsPlayerReq, x: RowView)
    ensures
        primary_keys(rows.push(x), req) == (if row_keeps(x, req) {
            primary_keys(rows, req).push(key_of(x))
        } else {
            primary_keys(rows, req)
        }),
{
    broadcast use Seq::lemma_push_map_commute;

    reveal(Seq::filter);
    let t = rows.push(x);
    assert(t.drop_last() =~= rows);
    assert(t.last() == x);
}

/// Appending a row extends a key group by the row exactly when it is kept
/// and belongs to the key.
proof fn lemma_key_group_push(
    rows: Seq<RowView>,
    req: ListDetailsPlayerReq,
    k: PlayerKeyView,
    x: RowView,
)
    ensures
        key_group(rows.push(x), req, k) == (if row_keeps(x, req) && key_of(x) == k {
            key_group(rows, req, k).push(x)
        } else {
            key_group(rows, req, k)
        }),
{
    reveal(Seq::filter);
    let t = rows.push(x);
    assert(t.drop_last() =~= rows);
    assert(t.last() == x);
}

/// Decides the row filter.
fn keeps_row(row: &ParticipantRow, req: &ListDetailsPlayerReq) -> (r: bool)
    ensures
        r == row_keeps(row@, *req),
{
    let min_mid = req.file_min_date.midnight();
    let max_mid = req.file_max_date.midnight();
    let in_range = min_mid.le(&row.recorded_at) && row.recorded_at.lt(&max_mid);
    let file_ok = req.file_name.as_str().is_empty() || str_contains_ci(
        row.file_name.as_str(),
        req.file_name.as_str(),
    );
    let id_ok = req.replay_id.as_str().is_empty() || u64_to_dec_string(row.record_id).eq(
        &req.replay_id,
    );
    let canon = canonical_name(row.display_name.as_str());
    let name_ok = if !req.name.as_str().is_empty() {
        str_contains_ci(canon.as_str(), req.name.as_str())
    } else {
        let ai = str_contains(canon.as_str(), "A.I");
        let cheater = str_contains(canon.as_str(), "Cheater ");
        proof {
            reveal_strlit("A.I");
            reveal_strlit("Cheater ");
            assert("A.I"@ =~= ai_token());
            assert("Cheater "@ =~= cheater_token());
        }
        !ai && !cheater
    };
    in_range && file_ok && id_ok && name_ok
}

/// Decides key equality between a row and a key.
fn row_has_key(row: &ParticipantRow, k: &PlayerKey) -> (r: bool)
    ensures
        r == (key_of(row@) == k@),
{
    let canon = canonical_name(row.display_name.as_str());
    let r = row.toon == k.toon && canon.eq(&k.name);
    proof {
        if r {
            assert(key_of(row@) == k@);
        } else {
            assert(key_of(row@) != k@);
        }
    }
    r
}

/// The distinct keys of the primary relation, in first-seen order.
fn distinct_keys(rows: &Vec<ParticipantRow>, req: &ListDetailsPlayerReq) -> (r: Vec<PlayerKey>)
    ensures
        pk_views(r@) == dedup_first(primary_keys(row_views(rows@), *req)),
{
    let ghost rv = row_views(rows@);
    let n = rows.len();
    let mut out: Vec<PlayerKey> = Vec::new();
    let mut i: usize = 0;
    proof {
        assert(rv.take(0) =~= Seq::<RowView>::empty());
        reveal(Seq::filter);
        assert(pk_views(out@) =~= dedup_first(primary_keys(rv.take(0), *req)));
        assert(rv.len() == rows@.len());
    }
    while i < n
        invariant
            n == rows@.len(),
            i <= n,
            rv == row_views(rows@),
            rv.len() == n,
            pk_views(out@) == dedup_first(primary_keys(rv.take(i as int), *req)),
        decreases n - i,
    {
        let ghost keys_pre = primary_keys(rv.take(i as int), *req);
        proof {
            assert(rv.take(i + 1) =~= rv.take(i as int).push(rv[i as int]));
            assert(rv[i as int] == rows@[i as int]@);
            lemma_primary_keys_push(rv.take(i as int), *req, rv[i as int]);
        }
        let row = &rows[i];
        if keeps_row(row, req) {
            let canon = canonical_name(row.display_name.as_str());
            let key = PlayerKey { toon: row.toon, name: canon };
            proof {
                assert(key@ == key_of(rv[i as int]));
            }
            let mut seen = false;
            let m = out.len();
            let mut j: usize = 0;
            while j < m
                invariant
                    m == out@.len(),
                    j <= m,
                    seen <==> exists|t: int| 0 <= t < j && out@[t]@ == key@,
                    key@ == key_of(rv[i as int]),
                    i < n,
                    rv.len() == n,
                decreases m - j,
            {
                if out[j].toon == key.toon && out[j].name.eq(&key.name) {
                    proof {
                        assert(out@[j as int]@ == key@);
                    }
                    seen = true;
                } else {
                    proof {
                        assert(out@[j as int]@ != key@);
                    }
                }
                j = j + 1;
            }
            let ghost d0 = dedup_first(keys_pre);
            proof {
                assert(primary_keys(rv.take(i + 1), *req) =~= keys_pre.push(key_of(rv[i as int])));
                if seen {
                    let t = choose|t: int| 0 <= t < out@.len() && out@[t]@ == key@;
                    assert(pk_views(out@)[t] == out@[t]@);
                    assert(d0.contains(key@));
                } else {
                    if d0.contains(key@) {
                        let t = choose|t: int| 0 <= t < pk_views(out@).len() && pk_views(out@)[t] == key@;
                        assert(out@[t]@ == key@);
                        assert(false);
                    }
                }
                assert(keys_pre.push(key_of(rv[i as int])).drop_last() =~= keys_pre);
                assert(keys_pre.push(key_of(rv[i as int])).last() == key_of(rv[i as int]));
                assert(keys_pre.push(key_of(rv[i as int])).len() == keys_pre.len() + 1);
                assert(dedup_first(keys_pre.push(key_of(rv[i as int]))) == (if d0.contains(key@) {
                    d0
                } else {
                    d0.push(key@)
                }));
            }
            if !seen {
                let ghost prev = out@;
                out.push(key);
                proof {
                    let lhs = pk_views(out@);
                    let rhs = pk_views(prev).push(key_of(rv[i as int]));
                    assert forall|u: int| 0 <= u < lhs.len() implies lhs[u] == rhs[u] by {
                        assert(lhs[u] == out@[u]@);
                        if u < prev.len() {
                            assert(out@[u] == prev[u]);
                            assert(pk_views(prev)[u] == prev[u]@);
                        }
                    }
                    assert(lhs =~= rhs);
                }
            }
        }
        i = i + 1;
    }
    proof {
        assert(rv.take(n as int) =~= rv);
    }
    out
}

/// The count, timestamp extrema, latest record id and first-row clan tag
/// of one player group.
fn key_group_stats(rows: &Vec<ParticipantRow>, req: &ListDetailsPlayerReq, k: &PlayerKey) -> (r: (
    usize,
    DateTime,
    DateTime,
    u64,
    Option<String>,
))
    requires
        key_group(row_views(rows@), *req, k@).len() > 0,
    ensures
        ({
            let g = key_group(row_views(rows@), *req, k@);
            let st = row_stamps(g);
            r.0 == g.len() && r.1 == spec_min_dt(st) && r.2 == spec_max_dt(st) && r.3
                == spec_latest(st).1 && opt_str_view(r.4) == clan_of(g[0].display_name)
        }),
{
    let ghost rv = row_views(rows@);
    let n = rows.len();
    let mut i: usize = 0;
    let mut count: usize = 0;
    let mut min_date = DateTime { year: 0, month: 0, day: 0, hour: 0, minute: 0, second: 0 };
    let mut max_date = min_date;
    let mut latest_date = min_date;
    let mut latest_id: u64 = 0;
    let mut clan: Option<String> = Option::None;
    proof {
        assert(rv.take(0) =~= Seq::<RowView>::empty());
        reveal(Seq::filter);
        assert(key_group(rv.take(0), *req, k@) =~= Seq::<RowView>::empty());
        assert(rv.len() == rows@.len());
    }
    while i < n
        invariant
            n == rows@.len(),
            i <= n,
            rv == row_views(rows@),
            rv.len() == n,
            count == key_group(rv.take(i as int), *req, k@).len(),
            count > 0 ==> ({
                let g = key_group(rv.take(i as int), *req, k@);
                let st = row_stamps(g);
                min_date == spec_min_dt(st) && max_date == spec_max_dt(st) && latest_date
                    == spec_latest(st).0 && latest_id == spec_latest(st).1 && opt_str_view(clan)
                    == clan_of(g[0].display_name)
            }),
        decreases n - i,
    {
        let ghost gpre = key_group(rv.take(i as int), *req, k@);
        let ghost stpre = row_stamps(gpre);
        proof {
            assert(rv.take(i + 1) =~= rv.take(i as int).push(rv[i as int]));
            assert(rv[i as int] == rows@[i as int]@);
            lemma_key_group_push(rv.take(i as int), *req, k@, rv[i as int]);
        }
        let row = &rows[i];
        if keeps_row(row, req) && row_has_key(row, k) {
            let ghost gpost = key_group(rv.take(i + 1), *req, k@);
            proof {
                broadcast use Seq::lemma_push_map_commute;

                assert(gpost == gpre.push(rv[i as int]));
                assert(row_stamps(gpost) == stpre.push(
                    (rv[i as int].recorded_at, rv[i as int].record_id),
                ));
                if count > 0 {
                    crate::aggregate::lemma_stamp_aggregates_push(
                        stpre,
                        (rv[i as int].recorded_at, rv[i as int].record_id),
                    );
                    assert(gpost[0] == gpre[0]);
                } else {
                    assert(gpre.len() == 0);
                    assert(stpre.len() == 0);
                    assert(row_stamps(gpost).len() == 1);
                }
            }
            if count == 0 {
                min_date = row.recorded_at;
                max_date = row.recorded_at;
                latest_date = row.recorded_at;
                latest_id = row.record_id;
                clan = clan_tag(row.display_name.as_str());
                proof {
                    let st = row_stamps(gpost);
                    assert(st[0] == (rv[i as int].recorded_at, rv[i as int].record_id));
                    assert(spec_min_dt(st) == st[0].0);
                    assert(spec_max_dt(st) == st[0].0);
                    assert(spec_latest(st) == st[0]);
                    assert(gpost[0] == rv[i as int]);
                }
            } else {
                if !min_date.le(&row.recorded_at) {
                    min_date = row.recorded_at;
                }
                if max_date.le(&row.recorded_at) {
                    max_date = row.recorded_at;
                }
                if latest_date.le(&row.recorded_at) {
                    latest_date = row.recorded_at;
                    latest_id = row.record_id;
                }
            }
            count = count + 1;
        }
        i = i + 1;
    }
    proof {
        assert(rv.take(n as int) =~= rv);
    }
    (count, min_date, max_date, latest_id, clan)
}

/// The map titles of one player group, as owned strings.
fn collect_key_titles(rows: &Vec<ParticipantRow>, req: &ListDetailsPlayerReq, k: &PlayerKey) -> (r:
    Vec<String>)
    ensures
        str_views(r@) == group_titles(key_group(row_views(rows@), *req, k@)),
{
    let ghost rv = row_views(rows@);
    let mut titles: Vec<String> = Vec::new();
    let n = rows.len();
    let mut i: usize = 0;
    proof {
        assert(rv.take(0) =~= Seq::<RowView>::empty());
        reveal(Seq::filter);
        assert(str_views(titles@) =~= group_titles(key_group(rv.take(0), *req, k@)));
        assert(rv.len() == rows@.len());
    }
    while i < n
        invariant
            n == rows@.len(),
            i <= n,
            rv == row_views(rows@),
            rv.len() == n,
            str_views(titles@) == group_titles(key_group(rv.take(i as int), *req, k@)),
        decreases n - i,
    {
        proof {
            broadcast use Seq::lemma_push_map_commute;

            assert(rv.take(i + 1) =~= rv.take(i as int).push(rv[i as int]));
            assert(rv[i as int] == rows@[i as int]@);
            lemma_key_group_push(rv.take(i as int), *req, k@, rv[i as int]);
        }
        let row = &rows[i];
        if keeps_row(row, req) && row_has_key(row, k) {
            let ghost prev = titles@;
            titles.push(row.map_title.clone());
            proof {
                crate::map_frequency::lemma_str_views_push(prev, titles@);
                assert(titles@[titles@.len() - 1]@ == rv[i as int].map_title);
            }
        }
        i = i + 1;
    }
    proof {
        assert(rv.take(n as int) =~= rv);
    }
    titles
}

/// A key listed by the primary relation has a non-empty group.
proof fn lemma_key_group_nonempty(rows: Seq<RowView>, req: ListDetailsPlayerReq, k: PlayerKeyView)
    requires
        primary_keys(rows, req).contains(k),
    ensures
        key_group(rows, req, k).len() > 0,
{
    broadcast use vstd::seq_lib::group_filter_ensures;

    let kept = rows.filter(|rv: RowView| row_keeps(rv, req));
    let idx = choose|idx: int|
        0 <= idx < primary_keys(rows, req).len() && primary_keys(rows, req)[idx] == k;
    assert(primary_keys(rows, req)[idx] == key_of(kept[idx]));
    let row = kept[idx];
    assert(row_keeps(row, req)) by {
        rows.lemma_filter_pred(|rv: RowView| row_keeps(rv, req), idx);
    }
    assert(rows.contains(row)) by {
        assert(kept.contains(row));
        rows.lemma_filter_contains_rev(|rv: RowView| row_keeps(rv, req), row);
    }
    let j = choose|j: int| 0 <= j < rows.len() && rows[j] == row;
    rows.lemma_filter_contains(|rv: RowView| row_keeps(rv, req) && key_of(rv) == k, j);
    assert(key_group(rows, req, k).contains(row));
}


/// Every unranked row is the statistics row of a listed player key: its
/// count is the size of a non-empty group and its top list is bounded.
proof fn lemma_player_rows_grounded(
    rows: Seq<RowView>,
    req: ListDetailsPlayerReq,
    rows_v: Seq<PlayerStats>,
)
    requires
        rows.len() <= 0xFFFF_FFFF,
        ps_views(rows_v) == player_stats_rows(rows, req, dedup_first(primary_keys(rows, req))),
    ensures
        forall|u: int|
            0 <= u < rows_v.len() ==> (#[trigger] rows_v[u]).count > 0
                && rows_v[u].top_maps@.len() <= TOP_MAPS_PER_PLAYER,
{
    broadcast use vstd::seq_lib::group_filter_ensures;

    let keys = dedup_first(primary_keys(rows, req));
    assert forall|u: int| 0 <= u < rows_v.len() implies (#[trigger] rows_v[u]).count > 0
        && rows_v[u].top_maps@.len() <= TOP_MAPS_PER_PLAYER by {
        assert(ps_views(rows_v).len() == rows_v.len());
        assert(ps_views(rows_v)[u] == rows_v[u]@);
        assert(player_stats_rows(rows, req, keys)[u] == player_stat_of(rows, req, keys[u]));
        assert(keys.contains(keys[u]));
        lemma_dedup_first_contains(primary_keys(rows, req), keys[u]);
        lemma_key_group_nonempty(rows, req, keys[u]);
        let g = key_group(rows, req, keys[u]);
        assert(g.len() <= rows.len());
        assert(rows_v[u]@.count == g.len() as u32);
        crate::topk::lemma_top_k_sound(group_titles(g), TOP_MAPS_PER_PLAYER as int);
        assert(rows_v[u]@.top_maps.len() <= TOP_MAPS_PER_PLAYER);
        assert(str_views(rows_v[u].top_maps@).len() == rows_v[u].top_maps@.len());
    }
}

/// Answers the per-player statistics query. One row per distinct player
/// key (account identity plus canonical name) of the filtered expanded
/// snapshot, carrying the row count, the timestamp extrema, the most
/// recent record id, and the top maps of that player; ranked by
/// descending count with ties broken by ascending name and identity,
/// truncated to the page bound. The envelope's total equals the number of
/// returned rows.
pub fn get_player_freq(records: &Vec<MatchRecord>, req: &ListDetailsPlayerReq) -> (r:
    ListDetailsPlayerRes)
    requires
        spec_explode(records@).len() <= 0xFFFF_FFFF,
    ensures
        ps_views(r.data@) == spec_player_stats(records@, *req),
        r.meta.total == r.data@.len(),
        r.meta.status is Success,
        r.data@.len() <= PLAYER_STATS_LIMIT,
        forall|i: int, j: int|
            0 <= i < j < r.data@.len() ==> psv_before((#[trigger] r.data@[i])@, (
            #[trigger] r.data@[j])@),
        forall|i: int| 0 <= i < r.data@.len() ==> (#[trigger] r.data@[i]).count > 0,
        forall|i: int|
            0 <= i < r.data@.len() ==> (#[trigger] r.data@[i]).top_maps@.len()
                <= TOP_MAPS_PER_PLAYER,
{
    broadcast use vstd::seq_lib::group_filter_ensures;

    let meta = ResponseMetaBuilder::new();
    let rows = explode(records);
    let ghost rv = row_views(rows@);
    proof {
        assert(rv == spec_explode(records@));
        assert(rv.len() == rows@.len());
    }
    let keys = distinct_keys(&rows, req);
    let ghost keys_v = pk_views(keys@);
    proof {
        assert(keys_v == dedup_first(primary_keys(rv, *req)));
    }
    let mut stats: Vec<PlayerStats> = Vec::new();
    let kn = keys.len();
    let mut j: usize = 0;
    proof {
        assert(keys_v.len() == keys@.len());
        assert(ps_views(stats@) =~= player_stats_rows(rv, *req, keys_v.take(0)));
    }
    while j < kn
        invariant
            kn == keys@.len(),
            j <= kn,
            rv == row_views(rows@),
            rv == spec_explode(records@),
            rv.len() <= 0xFFFF_FFFF,
            keys_v == pk_views(keys@),
            keys_v == dedup_first(primary_keys(rv, *req)),
            ps_views(stats@) == player_stats_rows(rv, *req, keys_v.take(j as int)),
        decreases kn - j,
    {
        let ghost k = keys_v[j as int];
        proof {
            assert(keys_v[j as int] == keys@[j as int]@);
            assert(keys_v.contains(k));
            lemma_dedup_first_contains(primary_keys(rv, *req), k);
            lemma_key_group_nonempty(rv, *req, k);
            assert(key_group(rv, *req, k).len() <= rv.len());
        }
        let st = key_group_stats(&rows, req, &keys[j]);
        let titles = collect_key_titles(&rows, req, &keys[j]);
        let top = top_k_frequency(&titles, TOP_MAPS_PER_PLAYER);
        let row = PlayerStats {
            clan: st.4,
            name: keys[j].name.clone(),
            count: st.0 as u32,
            min_date: st.1,
            max_date: st.2,
            latest_replay_id: st.3,
            top_maps: top,
            race_stats: Vec::new(),
            player_toon_region: keys[j].toon.region,
            player_toon_program_id: keys[j].toon.program_id,
            player_toon_realm: keys[j].toon.realm,
            player_toon_id: keys[j].toon.id,
        };
        proof {
            assert(row@ == player_stat_of(rv, *req, k));
        }
        let ghost prev = stats@;
        stats.push(row);
        proof {
            let lhs = ps_views(stats@);
            let rhs = player_stats_rows(rv, *req, keys_v.take(j + 1));
            assert(ps_views(prev).len() == prev.len());
            assert(player_stats_rows(rv, *req, keys_v.take(j as int)).len() == j);
            assert(prev.len() == j);
            assert(lhs.len() == j + 1);
            assert(rhs.len() == j + 1);
            assert(keys_v.take(j + 1) =~= keys_v.take(j as int).push(k));
            assert forall|u: int| 0 <= u < lhs.len() implies lhs[u] == rhs[u] by {
                assert(lhs[u] == stats@[u]@);
                assert(rhs[u] == player_stat_of(rv, *req, keys_v.take(j + 1)[u]));
                if u < prev.len() {
                    assert(stats@[u] == prev[u]);
                    assert(ps_views(prev)[u] == prev[u]@);
                    assert(player_stats_rows(rv, *req, keys_v.take(j as int))[u] == player_stat_of(
                        rv,
                        *req,
                        keys_v.take(j as int)[u],
                    ));
                    assert(keys_v.take(j + 1)[u] == keys_v.take(j as int)[u]);
                } else {
                    assert(keys_v.take(j + 1)[u] == k);
                }
            }
            assert(lhs =~= rhs);
        }
        j = j + 1;
    }
    proof {
        assert(keys_v.take(kn as int) =~= keys_v);
    }
    let ghost stats_v = stats@;
    proof {
        crate::aggregate::lemma_dedup_first_no_duplicates(primary_keys(rv, *req));
        assert forall|a: int, b: int| 0 <= a < b < stats_v.len() implies (PlayerStats::before(
            #[trigger] stats_v[a],
            #[trigger] stats_v[b],
        ) || PlayerStats::before(stats_v[b], stats_v[a])) by {
            assert(ps_views(stats_v)[a] == stats_v[a]@);
            assert(ps_views(stats_v)[b] == stats_v[b]@);
            assert(player_stats_rows(rv, *req, keys_v)[a] == player_stat_of(rv, *req, keys_v[a]));
            assert(player_stats_rows(rv, *req, keys_v)[b] == player_stat_of(rv, *req, keys_v[b]));
            assert(stats_v[a]@.name == keys_v[a].name);
            assert(stats_v[b]@.name == keys_v[b].name);
            assert(stats_v[a]@.toon == keys_v[a].toon);
            assert(stats_v[b]@.toon == keys_v[b].toon);
            assert(keys_v[a] != keys_v[b]);
            lemma_seq_char_connected(stats_v[a].name@, stats_v[b].name@);
        }
    }
    let mut ranked = rank_rows(stats);
    proof {
        crate::rank::lemma_sort_view_bridge::<PlayerStats, PlayerStatsView>(
            stats_v,
            |p: PlayerStats| p@,
            psv_order(),
        );
        assert(stats_v.map_values(|p: PlayerStats| p@) =~= ps_views(stats_v));
        crate::rank::lemma_sort_by_rank_strict::<PlayerStats>(stats_v);
        crate::rank::lemma_sort_by_rank_len(stats_v);
    }
    limit_rows(&mut ranked, PLAYER_STATS_LIMIT);
    let ghost sorted_v = sort_by(ps_views(stats_v), psv_order());
    let ghost n_take = vstd::math::min(PLAYER_STATS_LIMIT as int, sorted_v.len() as int);
    proof {
        assert(sort_by_rank(stats_v).map_values(|p: PlayerStats| p@) =~= ps_views(
            sort_by_rank(stats_v),
        ));
        assert(ps_views(sort_by_rank(stats_v)).len() == sort_by_rank(stats_v).len());
        assert(ps_views(ranked@) =~= sorted_v.take(n_take)) by {
            assert forall|u: int| 0 <= u < ranked@.len() implies ps_views(ranked@)[u]
                == sorted_v.take(n_take)[u] by {
                assert(ranked@[u] == sort_by_rank(stats_v)[u]);
                assert(ps_views(ranked@)[u] == ranked@[u]@);
                assert(ps_views(sort_by_rank(stats_v))[u] == sort_by_rank(stats_v)[u]@);
            }
            assert(ps_views(ranked@).len() == ranked@.len());
        }
        assert(ps_views(ranked@) == spec_player_stats(records@, *req));
        assert forall|i: int, j2: int| 0 <= i < j2 < ranked@.len() implies psv_before((
        #[trigger] ranked@[i])@, (#[trigger] ranked@[j2])@) by {
            assert(ranked@[i] == sort_by_rank(stats_v)[i]);
            assert(ranked@[j2] == sort_by_rank(stats_v)[j2]);
            assert(PlayerStats::before(sort_by_rank(stats_v)[i], sort_by_rank(stats_v)[j2]));
        }
        lemma_player_rows_grounded(rv, *req, stats_v);
        crate::rank::lemma_sort_by_rank_multiset(stats_v);
        assert forall|i: int| 0 <= i < ranked@.len() implies ((#[trigger] ranked@[i]).count > 0
            && ranked@[i].top_maps@.len() <= TOP_MAPS_PER_PLAYER) by {
            broadcast use vstd::seq_lib::group_to_multiset_ensures;

            assert(ranked@[i] == sort_by_rank(stats_v)[i]);
            assert(sort_by_rank(stats_v).contains(ranked@[i]));
            assert(sort_by_rank(stats_v).to_multiset().contains(ranked@[i]));
            assert(stats_v.to_multiset().contains(ranked@[i]));
            assert(stats_v.contains(ranked@[i]));
            let u = choose|u: int| 0 <= u < stats_v.len() && stats_v[u] == ranked@[i];
            assert(stats_v[u].count > 0);
        }
    }
    let total_rows = ranked.len();
    ListDetailsPlayerRes { meta: meta.with_total(total_rows).build(), data: ranked }
}


/// The enrichment of a player row never invents data: every returned
/// row's group is non-empty, its latest record id is the id of an actual
/// row of that group, and every listed top map occurs among the player's
/// rows. An inner join underlies this: a key without auxiliary data would
/// simply not appear.
pub proof fn lemma_player_stats_enriched(recs: Seq<MatchRecord>, req: ListDetailsPlayerReq, i: int)
    requires
        0 <= i < spec_player_stats(recs, req).len(),
    ensures
        ({
            let rows = spec_explode(recs);
            let row = spec_player_stats(recs, req)[i];
            let k = PlayerKeyView { toon: row.toon, name: row.name };
            &&& key_group(rows, req, k).len() > 0
            &&& exists|j: int|
                0 <= j < key_group(rows, req, k).len() && (#[trigger] key_group(rows, req, k)[j]).record_id
                    == row.latest_replay_id
            &&& forall|t: int|
                0 <= t < row.top_maps.len() ==> crate::aggregate::count_of(
                    group_titles(key_group(rows, req, k)),
                    #[trigger] row.top_maps[t],
                ) > 0
        }),
{
    let rows = spec_explode(recs);
    let keys = dedup_first(primary_keys(rows, req));
    let unranked = player_stats_rows(rows, req, keys);
    let ranked = sort_by(unranked, psv_order());
    let row = spec_player_stats(recs, req)[i];
    assert(row == ranked[i]);
    crate::rank::lemma_sort_by_element(unranked, psv_order(), i);
    let u = choose|u: int| 0 <= u < unranked.len() && unranked[u] == ranked[i];
    assert(unranked[u] == player_stat_of(rows, req, keys[u]));
    assert(row.name == keys[u].name);
    assert(row.toon == keys[u].toon);
    let k = PlayerKeyView { toon: row.toon, name: row.name };
    assert(k == keys[u]);
    assert(keys.contains(keys[u]));
    lemma_dedup_first_contains(primary_keys(rows, req), keys[u]);
    lemma_key_group_nonempty(rows, req, keys[u]);
    let g = key_group(rows, req, k);
    let st = row_stamps(g);
    assert(st.len() == g.len());
    crate::aggregate::lemma_latest_in(st);
    let j = choose|j: int| 0 <= j < st.len() && st[j] == spec_latest(st);
    assert(st[j] == (g[j].recorded_at, g[j].record_id));
    assert(g[j].record_id == row.latest_replay_id);
    crate::topk::lemma_top_k_sound(group_titles(g), TOP_MAPS_PER_PLAYER as int);
}

} // verus!
