//! The snapshot data model: match records, their participants, and the
//! participant-level rows produced by expanding the one-to-many nesting.
//!
//! A snapshot is an immutable collection of [`MatchRecord`]s handed to the
//! engine as plain values; the ingestion process that builds it is outside
//! the library. Player-centric queries first expand each record into one
//! row per participant ([`explode`]), keeping a back-reference to the
//! record's identity and timestamp for later joins. Exploded rows are
//! described in contracts through their mathematical view [`RowView`].

use vstd::prelude::*;

verus! {

use crate::datetime::DateTime;

/// The account identity of a player: region, realm, program and id.
#[derive(Debug, Clone, Copy, PartialEq, Eq, Structural)]
pub struct ToonIdentity {
    /// Region number of the account.
    pub region: u64,
    /// Realm number within the region.
    pub realm: u64,
    /// Program (game) identifier.
    pub program_id: u64,
    /// Account identifier within the realm.
    pub id: u64,
}

/// The race a participant played.
#[derive(Debug, Clone, Copy, PartialEq, Eq, Structural)]
pub enum Race {
    /// Terran.
    Terran,
    /// Zerg.
    Zerg,
    /// Protoss.
    Protoss,
    /// Chosen at random by the game.
    Random,
}

/// How a match ended for one participant.
#[derive(Debug, Clone, Copy, PartialEq, Eq, Structural)]
pub enum MatchOutcome {
    /// The participant won.
    Win,
    /// The participant lost.
    Loss,
    /// The outcome was not decided.
    Undecided,
    /// The match was a tie.
    Tie,
}

/// One participant of a match, as recorded by the decoder.
#[derive(Debug)]
pub struct Participant {
    /// The account identity of the player.
    pub toon: ToonIdentity,
    /// The raw display name; it may hold a clan-tag prefix ended by the
    /// marker token.
    pub display_name: String,
    /// The race played.
    pub race: Race,
    /// The outcome for this participant.
    pub result: MatchOutcome,
}

impl Clone for Participant {
    fn clone(&self) -> (r: Self)
        ensures
            r == *self,
    {
        Participant {
            toon: self.toon,
            display_name: self.display_name.clone(),
            race: self.race,
            result: self.result,
        }
    }
}

/// One analyzed replay: the unit of the snapshot.
#[derive(Debug, Clone)]
pub struct MatchRecord {
    /// Stable surrogate key, unique across the snapshot.
    pub record_id: u64,
    /// Name of the replay file the record was built from.
    pub file_name: String,
    /// Content hash of the replay file.
    pub content_hash: String,
    /// When the match was recorded.
    pub recorded_at: DateTime,
    /// Title of the map the match was played on.
    pub map_title: String,
    /// The participants of the match, in recorded order.
    pub participants: Vec<Participant>,
}

/// One participant of one match, with the match columns duplicated: the
/// row shape produced by expanding the nested participant list.
#[derive(Debug)]
pub struct ParticipantRow {
    /// Key of the record this row came from.
    pub record_id: u64,
    /// When the match was recorded.
    pub recorded_at: DateTime,
    /// Title of the map the match was played on.
    pub map_title: String,
    /// Name of the replay file.
    pub file_name: String,
    /// Content hash of the replay file.
    pub content_hash: String,
    /// The account identity of the player.
    pub toon: ToonIdentity,
    /// The raw display name of the player.
    pub display_name: String,
    /// The race played.
    pub race: Race,
    /// The outcome for this participant.
    pub result: MatchOutcome,
}

impl Clone for ParticipantRow {
    fn clone(&self) -> (r: Self)
        ensures
            r == *self,
    {
        ParticipantRow {
            record_id: self.record_id,
            recorded_at: self.recorded_at,
            map_title: self.map_title.clone(),
            file_name: self.file_name.clone(),
            content_hash: self.content_hash.clone(),
            toon: self.toon,
            display_name: self.display_name.clone(),
            race: self.race,
            result: self.result,
        }
    }
}

/// The mathematical content of a [`ParticipantRow`]: the same fields with
/// text as character sequences.
pub ghost struct RowView {
    /// Key of the record this row came from.
    pub record_id: u64,
    /// When the match was recorded.
    pub recorded_at: DateTime,
    /// Title of the map the match was played on.
    pub map_title: Seq<char>,
    /// Name of the replay file.
    pub file_name: Seq<char>,
    /// Content hash of the replay file.
    pub content_hash: Seq<char>,
    /// The account identity of the player.
    pub toon: ToonIdentity,
    /// The raw display name of the player.
    pub display_name: Seq<char>,
    /// The race played.
    pub race: Race,
    /// The outcome for this participant.
    pub result: MatchOutcome,
}

impl View for ParticipantRow {
    type V = RowView;

    open spec fn view(&self) -> RowView {
        RowView {
            record_id: self.record_id,
            recorded_at: self.recorded_at,
            map_title: self.map_title@,
            file_name: self.file_name@,
            content_hash: self.content_hash@,
            toon: self.toon,
            display_name: self.display_name@,
            race: self.race,
            result: self.result,
        }
    }
}

/// The views of a sequence of exploded rows.
pub open spec fn row_views(s: Seq<ParticipantRow>) -> Seq<RowView> {
    s.map_values(|r: ParticipantRow| r@)
}

/// The row view a given participant of a given record expands to.
pub open spec fn spec_row_of(rec: MatchRecord, p: Participant) -> RowView {
    RowView {
        record_id: rec.record_id,
        recorded_at: rec.recorded_at,
        map_title: rec.map_title@,
        file_name: rec.file_name@,
        content_hash: rec.content_hash@,
        toon: p.toon,
        display_name: p.display_name@,
        race: p.race,
        result: p.result,
    }
}

/// The row views a single record expands to, one per participant, in order.
pub open spec fn spec_rows_of(rec: MatchRecord) -> Seq<RowView> {
    rec.participants@.map_values(|p: Participant| spec_row_of(rec, p))
}

/// The row views a snapshot expands to: each record's rows, in record
/// order.
pub open spec fn spec_explode(recs: Seq<MatchRecord>) -> Seq<RowView>
    decreases recs.len(),
{
    if recs.len() == 0 {
        Seq::empty()
    } else {
        spec_explode(recs.drop_last()) + spec_rows_of(recs.last())
    }
}

/// Expands each record into one row per participant, in order: the
/// expansion is pure and order-preserving, and a record with no
/// participants contributes no rows.
pub fn explode(records: &Vec<MatchRecord>) -> (r: Vec<ParticipantRow>)
    ensures
        row_views(r@) == spec_explode(records@),
{
    let mut out: Vec<ParticipantRow> = Vec::new();
    let n = records.len();
    let mut i: usize = 0;
    while i < n
        invariant
            n == records@.len(),
            i <= n,
            row_views(out@) == spec_explode(records@.subrange(0, i as int)),
        decreases n - i,
    {
        let rec = &records[i];
        let m = rec.participants.len();
        let mut j: usize = 0;
        while j < m
            invariant
                n == records@.len(),
                i < n,
                rec == records@[i as int],
                m == rec.participants@.len(),
                j <= m,
                row_views(out@) == spec_explode(records@.subrange(0, i as int)) + spec_rows_of(
                    *rec,
                ).subrange(0, j as int),
            decreases m - j,
        {
            let p = &rec.participants[j];
            let row = ParticipantRow {
                record_id: rec.record_id,
                recorded_at: rec.recorded_at,
                map_title: rec.map_title.clone(),
                file_name: rec.file_name.clone(),
                content_hash: rec.content_hash.clone(),
                toon: p.toon,
                display_name: p.display_name.clone(),
                race: p.race,
                result: p.result,
            };
            proof {
                assert(row@ == spec_rows_of(*rec)[j as int]);
            }
            let ghost prev = out@;
            out.push(row);
            proof {
                let a = spec_explode(records@.subrange(0, i as int));
                let b = spec_rows_of(*rec);
                let lhs = row_views(out@);
                let rhs = a + b.subrange(0, j + 1);
                assert(out@ == prev.push(row));
                assert forall|k: int| 0 <= k < out@.len() implies row_views(out@)[k] == (a
                    + b.subrange(0, j + 1))[k] by {
                    assert(row_views(out@)[k] == out@[k]@);
                    assert(row_views(prev).len() == prev.len());
                    assert(prev.len() == a.len() + j);
                    if k < a.len() {
                        assert(out@[k] == prev[k]);
                        assert(row_views(prev)[k] == prev[k]@);
                        assert((a + b.subrange(0, j as int))[k] == a[k]);
                        assert((a + b.subrange(0, j + 1))[k] == a[k]);
                    } else if k < prev.len() {
                        assert(out@[k] == prev[k]);
                        assert(row_views(prev)[k] == prev[k]@);
                        assert((a + b.subrange(0, j as int))[k] == b.subrange(0, j as int)[k
                            - a.len()]);
                        assert(b.subrange(0, j as int)[k - a.len()] == b[k - a.len()]);
                        assert((a + b.subrange(0, j + 1))[k] == b.subrange(0, j + 1)[k - a.len()]);
                        assert(b.subrange(0, j + 1)[k - a.len()] == b[k - a.len()]);
                    } else {
                        assert(out@[k] == row);
                        assert(k == a.len() + j);
                        assert((a + b.subrange(0, j + 1))[k] == b.subrange(0, j + 1)[j as int]);
                        assert(b.subrange(0, j + 1)[j as int] == b[j as int]);
                    }
                }
                assert(lhs.len() == out@.len());
                assert(rhs.len() == a.len() + j + 1);
                assert forall|k: int| 0 <= k < lhs.len() implies lhs[k] == rhs[k] by {
                    assert(row_views(out@)[k] == (a + b.subrange(0, j + 1))[k]);
                }
                assert(lhs =~= rhs);
            }
            j = j + 1;
        }
        proof {
            assert(spec_rows_of(*rec).subrange(0, m as int) =~= spec_rows_of(*rec));
            assert(records@.subrange(0, i + 1).drop_last() =~= records@.subrange(0, i as int));
            assert(records@.subrange(0, i + 1).last() == records@[i as int]);
        }
        i = i + 1;
    }
    proof {
        assert(records@.subrange(0, n as int) =~= records@);
    }
    out
}

} // verus!
