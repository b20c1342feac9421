//! Unit-spawn listings and the response envelope.

use replay_stats::error::Error;
use replay_stats::meta::{ResponseMeta, ResponseMetaBuilder, ResponseStatus};
use replay_stats::tracker_events::{self, TrackerEventRow, UnitBornPosReq};

fn row(hash: &str, player: &str, unit: &str, game_loop: i64) -> TrackerEventRow {
    TrackerEventRow {
        replay_hash: hash.to_string(),
        player_name: player.to_string(),
        unit_type_name: unit.to_string(),
        x: 11,
        y: 22,
        game_loop,
    }
}

fn open_req() -> UnitBornPosReq {
    UnitBornPosReq {
        player: Some(String::new()),
        unit_type_name: String::new(),
        game_loop: None,
        file_hash: String::new(),
    }
}

#[test]
fn events_sort_by_descending_game_loop() {
    let rows = vec![
        row("h1", "Ann", "Marine", 10),
        row("h1", "Ann", "Zergling", 30),
        row("h1", "Ann", "Probe", 20),
    ];
    let res = tracker_events::get_map_freq(&rows, &open_req());
    assert_eq!(res.meta.total, 3);
    let loops: Vec<i64> = res.data.iter().map(|e| e.game_loop).collect();
    assert_eq!(loops, vec![30, 20, 10]);
}

#[test]
fn events_with_equal_loops_keep_scan_order() {
    let rows = vec![
        row("h1", "Ann", "First", 5),
        row("h1", "Ann", "Second", 5),
    ];
    let res = tracker_events::get_map_freq(&rows, &open_req());
    assert_eq!(res.data[0].unit_type_name, "First");
    assert_eq!(res.data[1].unit_type_name, "Second");
}

#[test]
fn unset_player_filter_selects_neutral_units() {
    let rows = vec![
        row("h1", "", "MineralField", 1),
        row("h1", "Ann", "Marine", 2),
    ];
    let req = UnitBornPosReq { player: None, ..open_req() };
    let res = tracker_events::get_map_freq(&rows, &req);
    assert_eq!(res.data.len(), 1);
    assert_eq!(res.data[0].unit_type_name, "MineralField");
}

#[test]
fn event_filters_are_case_insensitive_substrings() {
    let rows = vec![
        row("AbCdEf", "Ann", "Marine", 1),
        row("zzz", "Ann", "Zergling", 2),
    ];
    let req = UnitBornPosReq {
        player: Some("ann".to_string()),
        unit_type_name: "marine".to_string(),
        game_loop: None,
        file_hash: "bcde".to_string(),
    };
    let res = tracker_events::get_map_freq(&rows, &req);
    assert_eq!(res.data.len(), 1);
    assert_eq!(res.data[0].unit_type_name, "Marine");
}

#[test]
fn exact_game_loop_filter() {
    let rows = vec![
        row("h", "Ann", "Marine", 7),
        row("h", "Ann", "Marine", 8),
    ];
    let req = UnitBornPosReq { game_loop: Some(8), ..open_req() };
    let res = tracker_events::get_map_freq(&rows, &req);
    assert_eq!(res.data.len(), 1);
    assert_eq!(res.data[0].game_loop, 8);
}

#[test]
fn positions_are_carried_through_unchanged() {
    let rows = vec![row("h", "Ann", "Marine", 1)];
    let res = tracker_events::get_map_freq(&rows, &open_req());
    assert_eq!(res.data[0].x, 11);
    assert_eq!(res.data[0].y, 22);
}

#[test]
fn envelope_builder_tracks_total_and_error() {
    let ok = ResponseMetaBuilder::new().with_total(3).build();
    assert_eq!(ok.total, 3);
    assert!(matches!(ok.status, ResponseStatus::Success));

    let failed = ResponseMetaBuilder::new()
        .with_error("backing file is missing".to_string())
        .build();
    match failed.status {
        ResponseStatus::Error { message } => assert_eq!(message, "backing file is missing"),
        ResponseStatus::Success => panic!("expected an error status"),
    }
    assert_eq!(failed.total, 0);
}

#[test]
fn envelope_constructors_set_fields() {
    let ok = ResponseMeta::ok(4, 100, 5);
    assert_eq!(ok.total, 4);
    assert_eq!(ok.epoch, 100);
    assert_eq!(ok.duration, 5);
    let made = ResponseMeta::new(ResponseStatus::Success, 2, 7, "ignored".to_string(), 1);
    assert_eq!(made.total, 2);
    assert_eq!(made.epoch, 7);
    assert_eq!(made.duration, 1);
}

#[test]
fn error_kinds_carry_their_message() {
    let cases = vec![
        Error::DatasetUnavailable { message: "missing".to_string() },
        Error::SchemaMismatch { message: "bad shape".to_string() },
        Error::QueryExecutionFailure { message: "bad filter".to_string() },
        Error::SerializationFailure { message: "bad encode".to_string() },
    ];
    let expected = ["missing", "bad shape", "bad filter", "bad encode"];
    for (e, want) in cases.iter().zip(expected.iter()) {
        assert_eq!(e.message(), *want);
    }
}

#[test]
fn error_responses_are_structurally_valid() {
    let maps_err = replay_stats::maps::ListDetailsMapRes::error("backing file is gone".to_string());
    assert!(maps_err.data.is_empty());
    assert_eq!(maps_err.meta.total, 0);
    match maps_err.meta.status {
        ResponseStatus::Error { message } => assert_eq!(message, "backing file is gone"),
        ResponseStatus::Success => panic!("expected an error status"),
    }
    let ev_err = tracker_events::UnitBornPosRes::error("bad".to_string());
    assert!(ev_err.data.is_empty());
    assert_eq!(ev_err.meta.total, 0);
}

#[test]
fn event_listing_truncates_to_page_bound_and_total_matches() {
    let mut rows = Vec::new();
    let mut gl: i64 = 0;
    while rows.len() < 1005 {
        gl += 1;
        rows.push(row("h", "Ann", "Marine", gl));
    }
    let res = tracker_events::get_map_freq(&rows, &open_req());
    assert_eq!(res.data.len(), 1000);
    assert_eq!(res.meta.total, 1000);
    // the page holds the greatest game loops
    assert_eq!(res.data[0].game_loop, 1005);
    assert_eq!(res.data[999].game_loop, 6);
}
