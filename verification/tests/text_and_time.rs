//! Text primitives: canonical names, clan tags, decimal rendering,
//! timestamp rendering and percent-coding at the query edges.

use replay_stats::datetime::{Date, DateTime};
use replay_stats::maps::{ListDetailsMapReq, MapStats};
use replay_stats::text::{canonical_name, clan_tag, str_contains, str_contains_ci, str_lt, u64_to_dec_string};

fn date(y: u32, m: u32, d: u32) -> Date {
    Date { year: y, month: m, day: d }
}

#[test]
fn canonical_name_strips_clan_tag() {
    assert_eq!(canonical_name("Clan<sp/>Alice"), "Alice");
    assert_eq!(canonical_name("Alice"), "Alice");
    assert_eq!(canonical_name(""), "");
}

#[test]
fn canonical_name_strips_after_last_marker() {
    assert_eq!(canonical_name("A<sp/>B<sp/>C"), "C");
}

#[test]
fn canonical_name_is_idempotent() {
    let once = canonical_name("Team<sp/>Bob");
    let twice = canonical_name(&once);
    assert_eq!(once, twice);
    assert_eq!(once, "Bob");
}

#[test]
fn clan_tag_is_text_before_last_marker() {
    assert_eq!(clan_tag("Clan<sp/>Alice"), Some("Clan".to_string()));
    assert_eq!(clan_tag("A<sp/>B<sp/>C"), Some("A<sp/>B".to_string()));
    assert_eq!(clan_tag("Alice"), None);
}

#[test]
fn substring_search_is_case_insensitive_only_when_asked() {
    assert!(str_contains("Emerald City LE", "City"));
    assert!(!str_contains("Emerald City LE", "city"));
    assert!(str_contains_ci("Emerald City LE", "city le"));
    assert!(str_contains_ci("Emerald City LE", ""));
    assert!(!str_contains_ci("short", "much longer needle"));
}

#[test]
fn lexicographic_order_on_strings() {
    assert!(str_lt("abc", "abd"));
    assert!(str_lt("ab", "abc"));
    assert!(!str_lt("abc", "abc"));
    assert!(!str_lt("b", "ab"));
}

#[test]
fn decimal_rendering_has_exact_digits() {
    assert_eq!(u64_to_dec_string(0), "0");
    assert_eq!(u64_to_dec_string(7), "7");
    assert_eq!(u64_to_dec_string(12345), "12345");
    assert_eq!(u64_to_dec_string(u64::MAX), "18446744073709551615");
}

#[test]
fn iso_rendering_has_exact_shape() {
    let dt = DateTime { year: 2021, month: 4, day: 12, hour: 13, minute: 55, second: 57 };
    assert_eq!(dt.to_iso_string(), "2021-04-12T13:55:57");
    let early = DateTime { year: 987, month: 1, day: 2, hour: 3, minute: 4, second: 5 };
    assert_eq!(early.to_iso_string(), "0987-01-02T03:04:05");
}

#[test]
fn timestamp_order_is_lexicographic() {
    let a = DateTime { year: 2021, month: 4, day: 12, hour: 13, minute: 55, second: 57 };
    let b = DateTime { year: 2021, month: 4, day: 12, hour: 13, minute: 55, second: 58 };
    assert!(a.lt(&b));
    assert!(!b.lt(&a));
    assert!(a.le(&a));
}

#[test]
fn from_escaped_percent_decodes_text_filters() {
    let req = ListDetailsMapReq {
        title: "hello%20world".to_string(),
        player_1: "A%26B".to_string(),
        player_2: String::new(),
        file_name: "plain".to_string(),
        replay_id: "%41".to_string(),
        file_min_date: date(2000, 1, 1),
        file_max_date: date(2030, 1, 1),
    };
    let decoded = req.from_escaped();
    assert_eq!(decoded.title, "hello world");
    assert_eq!(decoded.player_1, "A&B");
    assert_eq!(decoded.file_name, "plain");
    // the identifier is taken as it is, never decoded
    assert_eq!(decoded.replay_id, "%41");
}

#[test]
fn clean_map_title_strips_prefix_and_underscores() {
    let stats = MapStats {
        title: "[ESL] Emerald City LE".to_string(),
        count: 1,
        min_date: DateTime { year: 2021, month: 1, day: 1, hour: 0, minute: 0, second: 0 },
        max_date: DateTime { year: 2021, month: 1, day: 1, hour: 0, minute: 0, second: 0 },
        latest_replay_id: 1,
        top_players: vec![],
    };
    assert_eq!(stats.clean_map_title(), "Emerald_City_LE");
    assert_eq!(
        stats.liquipedia_map_link(),
        "https://liquipedia.net/starcraft2/Emerald_City_LE"
    );
}

#[test]
fn liquipedia_link_percent_encodes_reserved_characters() {
    let stats = MapStats {
        title: "[ESL] A&B".to_string(),
        count: 1,
        min_date: DateTime { year: 2021, month: 1, day: 1, hour: 0, minute: 0, second: 0 },
        max_date: DateTime { year: 2021, month: 1, day: 1, hour: 0, minute: 0, second: 0 },
        latest_replay_id: 1,
        top_players: vec![],
    };
    assert_eq!(
        stats.liquipedia_map_link(),
        "https://liquipedia.net/starcraft2/A%26B"
    );
}
