//! The unit-spawn query: positioned unit-born events are filtered by
//! replay hash, owning player, unit type and game loop, listed in
//! descending game-loop order, and truncated to the page bound. Events
//! are not aggregated.

use vstd::prelude::*;

verus! {

use crate::meta::{ResponseMeta, ResponseMetaBuilder};
use crate::rank::{RankOrd, limit_rows, rank_rows, sort_by, sort_by_rank};
use crate::text::{contains_ci, str_contains_ci};

/// The page bound of the unit-spawn listing, enforced server-side.
pub const UNIT_EVENTS_LIMIT: usize = 1000;

/// Filters of the unit-spawn query.
#[derive(Debug, Default)]
pub struct UnitBornPosReq {
    /// The owning player: a case-insensitive substring of the recorded
    /// player name, or unset to ask for neutral units, which carry an
    /// empty player name.
    pub player: Option<String>,
    /// Case-insensitive substring of the unit type name; empty keeps
    /// every unit.
    pub unit_type_name: String,
    /// An exact game loop of the event, when set.
    pub game_loop: Option<i64>,
    /// Case-insensitive substring of the replay's content hash; empty
    /// keeps every replay.
    pub file_hash: String,
}

/// The unit-spawn response: envelope plus ordered events.
#[derive(Debug, Default)]
pub struct UnitBornPosRes {
    /// Metadata of the response.
    pub meta: ResponseMeta,
    /// The data of the response.
    pub data: Vec<UnitBornPosEvent>,
}

impl UnitBornPosRes {
    /// The structurally valid envelope returned when the query fails
    /// upstream: an error status carrying the message, zero rows, and no
    /// data. Partial results are never returned.
    pub fn error(message: String) -> (r: Self)
        ensures
            r.meta.status == (crate::meta::ResponseStatus::Error { message }),
            r.meta.total == 0,
            r.data@.len() == 0,
    {
        UnitBornPosRes {
            meta: ResponseMetaBuilder::new().with_error(message).build(),
            data: Vec::new(),
        }
    }
}

/// One positioned unit-born event. The positions are carried through
/// unchanged in the raw encoding the decoder produced; the engine never
/// reads them.
#[derive(Debug, Default)]
pub struct UnitBornPosEvent {
    /// The unit type that was born.
    pub unit_type_name: String,
    /// The raw encoding of the X position, as the decoder produced it.
    pub x: u32,
    /// The raw encoding of the Y position, as the decoder produced it.
    pub y: u32,
    /// The game loop of the event.
    pub game_loop: i64,
}

impl Clone for UnitBornPosEvent {
    fn clone(&self) -> (r: Self)
        ensures
            r == *self,
    {
        UnitBornPosEvent {
            unit_type_name: self.unit_type_name.clone(),
            x: self.x,
            y: self.y,
            game_loop: self.game_loop,
        }
    }
}

/// The mathematical content of a [`UnitBornPosEvent`].
pub ghost struct UnitBornPosEventView {
    /// The unit type that was born.
    pub unit_type_name: Seq<char>,
    /// The raw encoding of the X position.
    pub x: u32,
    /// The raw encoding of the Y position.
    pub y: u32,
    /// The game loop of the event.
    pub game_loop: i64,
}

impl View for UnitBornPosEvent {
    type V = UnitBornPosEventView;

    open spec fn view(&self) -> UnitBornPosEventView {
        UnitBornPosEventView {
            unit_type_name: self.unit_type_name@,
            x: self.x,
            y: self.y,
            game_loop: self.game_loop,
        }
    }
}

/// The views of a sequence of events.
pub open spec fn ub_views(s: Seq<UnitBornPosEvent>) -> Seq<UnitBornPosEventView> {
    s.map_values(|e: UnitBornPosEvent| e@)
}

/// One row of the unit-born snapshot, as the decoder produced it.
#[derive(Debug)]
pub struct TrackerEventRow {
    /// Content hash of the replay the event came from.
    pub replay_hash: String,
    /// The recorded name of the owning player; empty for a neutral unit.
    pub player_name: String,
    /// The unit type that was born.
    pub unit_type_name: String,
    /// The raw encoding of the X position.
    pub x: u32,
    /// The raw encoding of the Y position.
    pub y: u32,
    /// The game loop of the event.
    pub game_loop: i64,
}

impl Clone for TrackerEventRow {
    fn clone(&self) -> (r: Self)
        ensures
            r == *self,
    {
        TrackerEventRow {
            replay_hash: self.replay_hash.clone(),
            player_name: self.player_name.clone(),
            unit_type_name: self.unit_type_name.clone(),
            x: self.x,
            y: self.y,
            game_loop: self.game_loop,
        }
    }
}

/// The mathematical content of a [`TrackerEventRow`].
pub ghost struct TrackerRowView {
    /// Content hash of the replay the event came from.
    pub replay_hash: Seq<char>,
    /// The recorded name of the owning player.
    pub player_name: Seq<char>,
    /// The unit type that was born.
    pub unit_type_name: Seq<char>,
    /// The raw encoding of the X position.
    pub x: u32,
    /// The raw encoding of the Y position.
    pub y: u32,
    /// The game loop of the event.
    pub game_loop: i64,
}

impl View for TrackerEventRow {
    type V = TrackerRowView;

    open spec fn view(&self) -> TrackerRowView {
        TrackerRowView {
            replay_hash: self.replay_hash@,
            player_name: self.player_name@,
            unit_type_name: self.unit_type_name@,
            x: self.x,
            y: self.y,
            game_loop: self.game_loop,
        }
    }
}

/// The views of a sequence of tracker rows.
pub open spec fn tr_views(s: Seq<TrackerEventRow>) -> Seq<TrackerRowView> {
    s.map_values(|r: TrackerEventRow| r@)
}

/// The row passes the hash, player, unit-type and game-loop filters. An
/// unset player filter asks for neutral units: rows whose player name is
/// empty.
pub open spec fn event_keeps(rv: TrackerRowView, req: UnitBornPosReq) -> bool {
    &&& (req.file_hash@.len() == 0 || contains_ci(rv.replay_hash, req.file_hash@))
    &&& (match req.player {
        Option::Some(p) => contains_ci(rv.player_name, p@),
        Option::None => rv.player_name.len() == 0,
    })
    &&& (req.unit_type_name@.len() == 0 || contains_ci(rv.unit_type_name, req.unit_type_name@))
    &&& (match req.game_loop {
        Option::Some(gl) => rv.game_loop == gl,
        Option::None => true,
    })
}

/// The event a kept row projects to.
pub open spec fn event_of(rv: TrackerRowView) -> UnitBornPosEventView {
    UnitBornPosEventView {
        unit_type_name: rv.unit_type_name,
        x: rv.x,
        y: rv.y,
        game_loop: rv.game_loop,
    }
}

/// The filtered and projected events, in scan order.
pub open spec fn kept_events(rows: Seq<TrackerRowView>, req: UnitBornPosReq) -> Seq<
    UnitBornPosEventView,
> {
    rows.filter(|rv: TrackerRowView| event_keeps(rv, req)).map_values(
        |rv: TrackerRowView| event_of(rv),
    )
}

/// Listing order of events: greater game loops first; events of the same
/// loop keep their scan order.
pub open spec fn ubv_before(a: UnitBornPosEventView, b: UnitBornPosEventView) -> bool {
    a.game_loop > b.game_loop
}

/// The listing order as a function value, for the specification-level
/// sort.
pub open spec fn ubv_order() -> spec_fn(UnitBornPosEventView, UnitBornPosEventView) -> bool {
    |a: UnitBornPosEventView, b: UnitBornPosEventView| ubv_before(a, b)
}

/// The whole query, as a function: the kept events, stably ordered by
/// descending game loop and truncated to the page bound.
pub open spec fn spec_unit_events(rows: Seq<TrackerRowView>, req: UnitBornPosReq) -> Seq<
    UnitBornPosEventView,
> {
    let ranked = sort_by(kept_events(rows, req), ubv_order());
    let n = if (UNIT_EVENTS_LIMIT as int) < ranked.len() {
        UNIT_EVENTS_LIMIT as int
    } else {
        ranked.len() as int
    };
    ranked.take(n)
}

impl RankOrd for UnitBornPosEvent {
    open spec fn before(a: UnitBornPosEvent, b: UnitBornPosEvent) -> bool {
        ubv_before(a@, b@)
    }

    proof fn lemma_weak_order(a: UnitBornPosEvent, b: UnitBornPosEvent, c: UnitBornPosEvent) {
    }

    fn cmp_before(a: &UnitBornPosEvent, b: &UnitBornPosEvent) -> (r: bool) {
        a.game_loop > b.game_loop
    }
}

/// Appending a row extends the kept events by its projection exactly when
/// it passes the filters.
proof fn lemma_kept_events_push(rows: Seq<TrackerRowView>, req: UnitBornPosReq, x: TrackerRowView)
    ensures
        kept_events(rows.push(x), req) == (if event_keeps(x, req) {
            kept_events(rows, req).push(event_of(x))
        } else {
            kept_events(rows, req)
        }),
{
    broadcast use Seq::lemma_push_map_commute;

    reveal(Seq::filter);
    let t = rows.push(x);
    assert(t.drop_last() =~= rows);
    assert(t.last() == x);
}

/// Decides the event filter.
fn keeps_event(row: &TrackerEventRow, req: &UnitBornPosReq) -> (r: bool)
    ensures
        r == event_keeps(row@, *req),
{
    let hash_ok = req.file_hash.as_str().is_empty() || str_contains_ci(
        row.replay_hash.as_str(),
        req.file_hash.as_str(),
    );
    let player_ok = match &req.player {
        Option::Some(p) => str_contains_ci(row.player_name.as_str(), p.as_str()),
        Option::None => row.player_name.as_str().is_empty(),
    };
    let unit_ok = req.unit_type_name.as_str().is_empty() || str_contains_ci(
        row.unit_type_name.as_str(),
        req.unit_type_name.as_str(),
    );
    let loop_ok = match &req.game_loop {
        Option::Some(gl) => row.game_loop == *gl,
        Option::None => true,
    };
    hash_ok && player_ok && unit_ok && loop_ok
}

/// Answers the unit-spawn query: the rows passing the filters are
/// projected to events, listed stably by descending game loop, and
/// truncated to the page bound. The envelope's total equals the number of
/// returned events.
pub fn get_map_freq(rows: &Vec<TrackerEventRow>, req: &UnitBornPosReq) -> (r: UnitBornPosRes)
    ensures
        ub_views(r.data@) == spec_unit_events(tr_views(rows@), *req),
        r.meta.total == r.data@.len(),
        r.meta.status is Success,
        r.data@.len() <= UNIT_EVENTS_LIMIT,
        forall|i: int, j: int|
            0 <= i < j < r.data@.len() ==> (#[trigger] r.data@[j]).game_loop <= (
            #[trigger] r.data@[i]).game_loop,
{
    let meta = ResponseMetaBuilder::new();
    let ghost rv = tr_views(rows@);
    let mut events: Vec<UnitBornPosEvent> = Vec::new();
    let n = rows.len();
    let mut i: usize = 0;
    proof {
        assert(rv.take(0) =~= Seq::<TrackerRowView>::empty());
        reveal(Seq::filter);
        assert(ub_views(events@) =~= kept_events(rv.take(0), *req));
        assert(rv.len() == rows@.len());
    }
    while i < n
        invariant
            n == rows@.len(),
            i <= n,
            rv == tr_views(rows@),
            rv.len() == n,
            ub_views(events@) == kept_events(rv.take(i as int), *req),
        decreases n - i,
    {
        proof {
            assert(rv.take(i + 1) =~= rv.take(i as int).push(rv[i as int]));
            assert(rv[i as int] == rows@[i as int]@);
            lemma_kept_events_push(rv.take(i as int), *req, rv[i as int]);
        }
        let row = &rows[i];
        if keeps_event(row, req) {
            let ev = UnitBornPosEvent {
                unit_type_name: row.unit_type_name.clone(),
                x: row.x,
                y: row.y,
                game_loop: row.game_loop,
            };
            proof {
                assert(ev@ == event_of(rv[i as int]));
            }
            let ghost prev = events@;
            events.push(ev);
            proof {
                let lhs = ub_views(events@);
                let rhs = ub_views(prev).push(event_of(rv[i as int]));
                assert forall|u: int| 0 <= u < lhs.len() implies lhs[u] == rhs[u] by {
                    assert(lhs[u] == events@[u]@);
                    if u < prev.len() {
                        assert(events@[u] == prev[u]);
                        assert(ub_views(prev)[u] == prev[u]@);
                    }
                }
                assert(lhs =~= rhs);
            }
        }
        i = i + 1;
    }
    proof {
        assert(rv.take(n as int) =~= rv);
    }
    let ghost events_v = events@;
    let mut ranked = rank_rows(events);
    proof {
        crate::rank::lemma_sort_view_bridge::<UnitBornPosEvent, UnitBornPosEventView>(
            events_v,
            |e: UnitBornPosEvent| e@,
            ubv_order(),
        );
        assert(events_v.map_values(|e: UnitBornPosEvent| e@) =~= ub_views(events_v));
        crate::rank::lemma_sort_by_rank_sorted::<UnitBornPosEvent>(events_v);
        crate::rank::lemma_sort_by_rank_len(events_v);
    }
    limit_rows(&mut ranked, UNIT_EVENTS_LIMIT);
    let ghost sorted_v = sort_by(ub_views(events_v), ubv_order());
    let ghost n_take = vstd::math::min(UNIT_EVENTS_LIMIT as int, sorted_v.len() as int);
    proof {
        assert(sort_by_rank(events_v).map_values(|e: UnitBornPosEvent| e@) =~= ub_views(
            sort_by_rank(events_v),
        ));
        assert(ub_views(sort_by_rank(events_v)).len() == sort_by_rank(events_v).len());
        assert(ub_views(ranked@) =~= sorted_v.take(n_take)) by {
            assert forall|u: int| 0 <= u < ranked@.len() implies ub_views(ranked@)[u]
                == sorted_v.take(n_take)[u] by {
                assert(ranked@[u] == sort_by_rank(events_v)[u]);
                assert(ub_views(ranked@)[u] == ranked@[u]@);
                assert(ub_views(sort_by_rank(events_v))[u] == sort_by_rank(events_v)[u]@);
            }
            assert(ub_views(ranked@).len() == ranked@.len());
        }
        assert(ub_views(ranked@) == spec_unit_events(tr_views(rows@), *req));
        assert forall|i2: int, j2: int| 0 <= i2 < j2 < ranked@.len() implies (
        #[trigger] ranked@[j2]).game_loop <= (#[trigger] ranked@[i2]).game_loop by {
            assert(ranked@[i2] == sort_by_rank(events_v)[i2]);
            assert(ranked@[j2] == sort_by_rank(events_v)[j2]);
            assert(!UnitBornPosEvent::before(sort_by_rank(events_v)[j2], sort_by_rank(
                events_v,
            )[i2]));
        }
    }
    let total_rows = ranked.len();
    UnitBornPosRes { meta: meta.with_total(total_rows).build(), data: ranked }
}

} // verus!
