//! End-to-end query scenarios over small in-memory snapshots.

use replay_stats::datetime::{Date, DateTime};
use replay_stats::map_frequency::{self, ListDetailsMapFreqReq};
use replay_stats::maps::{self, ListDetailsMapReq};
use replay_stats::players::{self, ListDetailsPlayerReq};
use replay_stats::records::{MatchOutcome, MatchRecord, Participant, Race, ToonIdentity};
use replay_stats::snapshot_stats::get_metadata;
use replay_stats::topk::top_k_frequency;

fn dt(y: u32, mo: u32, d: u32, h: u32, mi: u32, s: u32) -> DateTime {
    DateTime { year: y, month: mo, day: d, hour: h, minute: mi, second: s }
}

fn date(y: u32, m: u32, d: u32) -> Date {
    Date { year: y, month: m, day: d }
}

fn player(region: u64, id: u64, name: &str) -> Participant {
    Participant {
        toon: ToonIdentity { region, realm: 1, program_id: 2, id },
        display_name: name.to_string(),
        race: Race::Terran,
        result: MatchOutcome::Win,
    }
}

fn rec(id: u64, title: &str, when: DateTime, names: &[&str]) -> MatchRecord {
    let mut participants = Vec::new();
    let mut n: u64 = 0;
    for name in names {
        n += 1;
        participants.push(player(1, id * 10 + n, name));
    }
    MatchRecord {
        record_id: id,
        file_name: format!("replay_{}.SC2Replay", id),
        content_hash: format!("hash{}", id),
        recorded_at: when,
        map_title: title.to_string(),
        participants,
    }
}

fn open_map_req() -> ListDetailsMapReq {
    ListDetailsMapReq {
        title: String::new(),
        player_1: String::new(),
        player_2: String::new(),
        file_name: String::new(),
        replay_id: String::new(),
        file_min_date: date(2000, 1, 1),
        file_max_date: date(2030, 1, 1),
    }
}

fn open_player_req() -> ListDetailsPlayerReq {
    ListDetailsPlayerReq {
        name: String::new(),
        file_name: String::new(),
        replay_id: String::new(),
        file_min_date: date(2000, 1, 1),
        file_max_date: date(2030, 1, 1),
    }
}

fn three_matches() -> Vec<MatchRecord> {
    vec![
        rec(1, "Alpha", dt(2021, 4, 12, 13, 0, 0), &["Ann", "Ben"]),
        rec(2, "Beta", dt(2021, 4, 13, 10, 0, 0), &["Ann", "Cleo"]),
        rec(3, "Alpha", dt(2021, 4, 14, 9, 30, 0), &["Ben", "Cleo"]),
    ]
}

#[test]
fn map_query_counts_matches_per_map() {
    let records = three_matches();
    let res = maps::get_map_freq(&records, &open_map_req());
    assert_eq!(res.meta.total, 2);
    assert_eq!(res.data.len(), 2);
    assert_eq!(res.data[0].title, "Alpha");
    assert_eq!(res.data[0].count, 2);
    assert_eq!(res.data[1].title, "Beta");
    assert_eq!(res.data[1].count, 1);
}

#[test]
fn map_query_aggregates_dates_and_latest_id() {
    let records = three_matches();
    let res = maps::get_map_freq(&records, &open_map_req());
    let alpha = &res.data[0];
    assert_eq!(alpha.min_date.to_iso_string(), "2021-04-12T13:00:00");
    assert_eq!(alpha.max_date.to_iso_string(), "2021-04-14T09:30:00");
    assert_eq!(alpha.latest_replay_id, 3);
}

#[test]
fn map_query_latest_breaks_timestamp_ties_by_scan_order() {
    let when = dt(2021, 4, 12, 13, 0, 0);
    let records = vec![
        rec(7, "Gamma", when, &["Ann"]),
        rec(8, "Gamma", when, &["Ben"]),
    ];
    let res = maps::get_map_freq(&records, &open_map_req());
    assert_eq!(res.data[0].latest_replay_id, 8);
}

#[test]
fn map_query_title_filter_is_case_insensitive() {
    let records = three_matches();
    let mut req = open_map_req();
    req.title = "ALPHA".to_string();
    let res = maps::get_map_freq(&records, &req);
    assert_eq!(res.data.len(), 1);
    assert_eq!(res.data[0].title, "Alpha");
    assert_eq!(res.data[0].count, 2);
}

#[test]
fn map_query_ties_break_by_ascending_title() {
    let records = vec![
        rec(1, "Zeta", dt(2021, 1, 1, 0, 0, 0), &["Ann"]),
        rec(2, "Eta", dt(2021, 1, 2, 0, 0, 0), &["Ann"]),
    ];
    let res = maps::get_map_freq(&records, &open_map_req());
    assert_eq!(res.data[0].title, "Eta");
    assert_eq!(res.data[1].title, "Zeta");
}

#[test]
fn map_query_reruns_identically() {
    let records = three_matches();
    let first = maps::get_map_freq(&records, &open_map_req());
    let second = maps::get_map_freq(&records, &open_map_req());
    assert_eq!(first.data.len(), second.data.len());
    for (a, b) in first.data.iter().zip(second.data.iter()) {
        assert_eq!(a.title, b.title);
        assert_eq!(a.count, b.count);
        assert_eq!(a.latest_replay_id, b.latest_replay_id);
        assert_eq!(a.top_players, b.top_players);
    }
}

#[test]
fn map_query_top_players_ranked_by_frequency() {
    let records = three_matches();
    let res = maps::get_map_freq(&records, &open_map_req());
    let alpha = &res.data[0];
    // on Alpha: Ben played twice, Ann and Cleo once each
    assert_eq!(alpha.top_players[0], "Ben");
    assert_eq!(alpha.top_players[1], "Ann");
    assert_eq!(alpha.top_players[2], "Cleo");
    assert!(alpha.top_players.len() <= 5);
}

#[test]
fn head_to_head_restricts_to_matches_with_both_players() {
    let records = vec![
        rec(1, "Delta", dt(2021, 1, 1, 0, 0, 0), &["X", "Y"]),
        rec(2, "Delta", dt(2021, 1, 2, 0, 0, 0), &["X", "Z"]),
        rec(3, "Omega", dt(2021, 1, 3, 0, 0, 0), &["Y", "X"]),
    ];
    let mut req = open_map_req();
    req.player_1 = "X".to_string();
    req.player_2 = "Y".to_string();
    let res = maps::get_map_freq(&records, &req);
    assert_eq!(res.data.len(), 2);
    assert_eq!(res.data[0].count, 1);
    assert_eq!(res.data[1].count, 1);
    let titles: Vec<&str> = res.data.iter().map(|m| m.title.as_str()).collect();
    assert!(titles.contains(&"Delta"));
    assert!(titles.contains(&"Omega"));
}

#[test]
fn inverted_date_range_returns_zero_rows_not_an_error() {
    let records = three_matches();
    let mut req = open_map_req();
    req.file_min_date = date(2030, 1, 1);
    req.file_max_date = date(2000, 1, 1);
    let res = maps::get_map_freq(&records, &req);
    assert_eq!(res.meta.total, 0);
    assert!(res.data.is_empty());
    assert!(matches!(res.meta.status, replay_stats::meta::ResponseStatus::Success));
}

#[test]
fn date_range_is_inclusive_exclusive() {
    let records = vec![
        rec(1, "Alpha", dt(2021, 4, 12, 0, 0, 0), &["Ann"]),
        rec(2, "Beta", dt(2021, 4, 13, 23, 59, 59), &["Ann"]),
        rec(3, "Gamma", dt(2021, 4, 14, 0, 0, 0), &["Ann"]),
    ];
    let mut req = open_map_req();
    req.file_min_date = date(2021, 4, 12);
    req.file_max_date = date(2021, 4, 14);
    let res = maps::get_map_freq(&records, &req);
    let titles: Vec<&str> = res.data.iter().map(|m| m.title.as_str()).collect();
    assert!(titles.contains(&"Alpha"));
    assert!(titles.contains(&"Beta"));
    assert!(!titles.contains(&"Gamma"));
}

#[test]
fn replay_id_filter_matches_exact_decimal_id() {
    let records = three_matches();
    let mut req = open_map_req();
    req.replay_id = "2".to_string();
    let res = maps::get_map_freq(&records, &req);
    assert_eq!(res.data.len(), 1);
    assert_eq!(res.data[0].title, "Beta");
}

#[test]
fn player_query_excludes_automated_without_name_filter() {
    let mut r1 = rec(1, "Alpha", dt(2021, 1, 1, 0, 0, 0), &[]);
    r1.participants.push(player(1, 100, "Hero"));
    r1.participants.push(player(1, 200, "A.I 1 (Very Easy)"));
    let mut r2 = rec(2, "Alpha", dt(2021, 1, 2, 0, 0, 0), &[]);
    r2.participants.push(player(1, 100, "Hero"));
    r2.participants.push(player(1, 201, "A.I 2 (Easy)"));
    let records = vec![r1, r2];
    let res = players::get_player_freq(&records, &open_player_req());
    assert_eq!(res.data.len(), 1);
    assert_eq!(res.data[0].name, "Hero");
    assert_eq!(res.data[0].count, 2);
}

#[test]
fn player_query_with_explicit_name_filter_includes_automated() {
    let records = vec![
        rec(1, "Alpha", dt(2021, 1, 1, 0, 0, 0), &["Hero", "A.I 1 (Very Easy)"]),
        rec(2, "Alpha", dt(2021, 1, 2, 0, 0, 0), &["Hero", "A.I 2 (Easy)"]),
    ];
    let mut req = open_player_req();
    req.name = "A.I".to_string();
    let res = players::get_player_freq(&records, &req);
    assert_eq!(res.data.len(), 2);
    assert!(res.data.iter().all(|p| p.name.contains("A.I")));
}

#[test]
fn player_query_groups_by_identity_and_canonical_name() {
    let records = vec![
        rec(1, "Alpha", dt(2021, 1, 1, 0, 0, 0), &["Clan<sp/>Ann", "Ben"]),
        rec(2, "Beta", dt(2021, 1, 2, 0, 0, 0), &["OtherClan<sp/>Ann", "Ben"]),
    ];
    let res = players::get_player_freq(&records, &open_player_req());
    // toon identities differ per record in this snapshot, so Ann appears
    // under two identities; all four rows are distinct keys with count 1
    assert_eq!(res.data.len(), 4);
    assert!(res.data.iter().all(|p| p.count == 1));
    let names: Vec<&str> = res.data.iter().map(|p| p.name.as_str()).collect();
    assert!(names.contains(&"Ann"));
    assert!(!names.contains(&"Clan<sp/>Ann"));
}

#[test]
fn player_query_carries_clan_tag_and_top_maps() {
    let mut records = Vec::new();
    let mut a = rec(1, "Alpha", dt(2021, 1, 1, 0, 0, 0), &[]);
    a.participants.push(player(1, 42, "Clan<sp/>Ann"));
    records.push(a);
    let mut b = rec(2, "Alpha", dt(2021, 1, 2, 0, 0, 0), &[]);
    b.participants.push(player(1, 42, "Clan<sp/>Ann"));
    records.push(b);
    let mut c = rec(3, "Beta", dt(2021, 1, 3, 0, 0, 0), &[]);
    c.participants.push(player(1, 42, "Clan<sp/>Ann"));
    records.push(c);
    let res = players::get_player_freq(&records, &open_player_req());
    assert_eq!(res.data.len(), 1);
    let ann = &res.data[0];
    assert_eq!(ann.name, "Ann");
    assert_eq!(ann.clan.as_deref(), Some("Clan"));
    assert_eq!(ann.count, 3);
    assert_eq!(ann.latest_replay_id, 3);
    assert_eq!(ann.top_maps[0], "Alpha");
    assert_eq!(ann.top_maps[1], "Beta");
    assert_eq!(ann.min_date.to_iso_string(), "2021-01-01T00:00:00");
    assert_eq!(ann.max_date.to_iso_string(), "2021-01-03T00:00:00");
}

#[test]
fn map_frequency_counts_and_ranks() {
    let records = three_matches();
    let req = ListDetailsMapFreqReq { title: None, player: None };
    let res = map_frequency::get_map_freq(&records, &req);
    assert_eq!(res.meta.total, 2);
    assert_eq!(res.data[0].title, "Alpha");
    assert_eq!(res.data[0].count, 2);
    assert_eq!(res.data[1].title, "Beta");
    assert_eq!(res.data[1].count, 1);
}

#[test]
fn map_frequency_player_filter_counts_participant_rows() {
    let records = three_matches();
    let req = ListDetailsMapFreqReq { title: None, player: Some("ann".to_string()) };
    let res = map_frequency::get_map_freq(&records, &req);
    // Ann played once on each map
    assert_eq!(res.data.len(), 2);
    assert!(res.data.iter().all(|m| m.count == 1));
}

#[test]
fn top_k_frequency_ranks_and_bounds() {
    let values: Vec<String> = ["a", "b", "a", "c", "b", "a"]
        .iter()
        .map(|s| s.to_string())
        .collect();
    let top = top_k_frequency(&values, 2);
    assert_eq!(top, vec!["a".to_string(), "b".to_string()]);
    let all = top_k_frequency(&values, 10);
    assert_eq!(all, vec!["a".to_string(), "b".to_string(), "c".to_string()]);
    let none = top_k_frequency(&values, 0);
    assert!(none.is_empty());
}

#[test]
fn top_k_frequency_breaks_count_ties_by_ascending_value() {
    let values: Vec<String> = ["b", "a", "b", "a"].iter().map(|s| s.to_string()).collect();
    let top = top_k_frequency(&values, 2);
    assert_eq!(top, vec!["a".to_string(), "b".to_string()]);
}

#[test]
fn snapshot_meta_reports_exact_directory_size() {
    let meta = get_metadata(&vec![1024], 777);
    assert_eq!(meta.directory_size, 1024);
    assert_eq!(meta.date_modified, 777);
    let several = get_metadata(&vec![10, 20, 30], 0);
    assert_eq!(several.directory_size, 60);
    let empty = get_metadata(&vec![], 5);
    assert_eq!(empty.directory_size, 0);
}

#[test]
fn snapshot_meta_saturates_on_overflow() {
    let meta = get_metadata(&vec![u64::MAX, 1], 0);
    assert_eq!(meta.directory_size, u64::MAX);
}

#[test]
fn every_response_total_equals_data_length() {
    let records = three_matches();
    let m = maps::get_map_freq(&records, &open_map_req());
    assert_eq!(m.meta.total, m.data.len());
    let p = players::get_player_freq(&records, &open_player_req());
    assert_eq!(p.meta.total, p.data.len());
    let f = map_frequency::get_map_freq(
        &records,
        &ListDetailsMapFreqReq { title: None, player: None },
    );
    assert_eq!(f.meta.total, f.data.len());
}

#[test]
fn file_name_filter_is_case_insensitive_substring() {
    let records = three_matches();
    let mut req = open_map_req();
    req.file_name = "REPLAY_2".to_string();
    let res = maps::get_map_freq(&records, &req);
    assert_eq!(res.data.len(), 1);
    assert_eq!(res.data[0].title, "Beta");
}

#[test]
fn player_query_replay_id_filter() {
    let records = three_matches();
    let mut req = open_player_req();
    req.replay_id = "1".to_string();
    let res = players::get_player_freq(&records, &req);
    // only the participants of the first match remain
    assert_eq!(res.data.len(), 2);
    let names: Vec<&str> = res.data.iter().map(|p| p.name.as_str()).collect();
    assert!(names.contains(&"Ann"));
    assert!(names.contains(&"Ben"));
}

#[test]
fn player_request_from_escaped_decodes_name() {
    let req = ListDetailsPlayerReq {
        name: "a%20b".to_string(),
        file_name: "x%2Ey".to_string(),
        replay_id: "9".to_string(),
        file_min_date: date(2000, 1, 1),
        file_max_date: date(2030, 1, 1),
    };
    let decoded = req.from_escaped();
    assert_eq!(decoded.name, "a b");
    assert_eq!(decoded.file_name, "x.y");
    assert_eq!(decoded.replay_id, "9");
}

#[test]
fn map_frequency_title_filter() {
    let records = three_matches();
    let req = ListDetailsMapFreqReq { title: Some("alp".to_string()), player: None };
    let res = map_frequency::get_map_freq(&records, &req);
    assert_eq!(res.data.len(), 1);
    assert_eq!(res.data[0].title, "Alpha");
}

#[test]
fn single_player_filter_keeps_matches_with_that_player() {
    let records = three_matches();
    let mut req = open_map_req();
    req.player_1 = "cleo".to_string();
    let res = maps::get_map_freq(&records, &req);
    // Cleo played once on each map
    assert_eq!(res.data.len(), 2);
    assert!(res.data.iter().all(|m| m.count == 1));
}

#[test]
fn default_date_bounds_are_documented() {
    let min = ListDetailsMapReq::default_min_date();
    assert_eq!((min.year, min.month, min.day), (2000, 1, 1));
    let max = ListDetailsMapReq::default_max_date();
    assert!((1..=12).contains(&max.month));
    assert!((1..=31).contains(&max.day));
}
