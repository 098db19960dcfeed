use elvanto_cli::api::raw::{
    CategoryList, JsonValue, RawCategory, RawService, RawServiceSong, RawServiceSongList, RawSong,
};
use elvanto_cli::date_window::Date;
use elvanto_cli::domain::song::SongSummary;
use elvanto_cli::song_filters::{
    filter_by_categories, keep_active, keep_by_usage, last_used_for, service_day, sort_most_recent_first,
};

fn d(y: i32, m: u32, day: u32) -> Date {
    Date::from_ymd_opt(y, m, day).unwrap()
}

fn raw_song(id: &str, cats: &[&str]) -> RawSong {
    RawSong {
        id: id.into(),
        title: id.to_uppercase(),
        artist: "".into(),
        album: "".into(),
        number: "".into(),
        status: JsonValue::String("1".into()),
        categories: CategoryList {
            category: cats.iter().map(|c| RawCategory { id: (*c).into(), name: "n".into() }).collect(),
        },
    }
}

fn service(date: &str, ids: &[&str]) -> RawService {
    RawService {
        id: "svc".into(),
        date: date.into(),
        songs: RawServiceSongList {
            song: ids.iter().map(|i| RawServiceSong { id: (*i).into(), arrangement: Default::default() }).collect(),
        },
        ..Default::default()
    }
}

fn summary(id: &str, last: Option<&str>) -> SongSummary {
    SongSummary {
        id: id.into(),
        title: id.into(),
        artist: "".into(),
        album: "".into(),
        ccli_number: "".into(),
        status: "active".into(),
        last_used: last.map(|s| s.into()),
        count: None,
        categories: vec![],
    }
}

#[test]
fn category_filter_matches_full_or_short_ids() {
    let songs = vec![
        raw_song("s1", &["aaaa1111-bbbb"]),
        raw_song("s2", &["cccc2222-dddd"]),
        raw_song("s3", &[]),
    ];
    let kept = filter_by_categories(songs.clone(), &vec!["aaaa1111".to_string()]);
    let ids: Vec<&str> = kept.iter().map(|s| s.id.as_str()).collect();
    assert_eq!(ids, vec!["s1"]);
    let all = filter_by_categories(songs.clone(), &vec![]);
    assert_eq!(all.len(), 3);
    let both = filter_by_categories(songs, &vec!["cccc2222-dddd".to_string(), "aaaa1111".to_string()]);
    assert_eq!(both.len(), 2);
}

#[test]
fn service_day_reads_first_ten_characters() {
    assert_eq!(service_day("2026-05-19 09:30:00"), Some(d(2026, 5, 19)));
    assert_eq!(service_day("2026-05-19"), Some(d(2026, 5, 19)));
    assert_eq!(service_day("garbage"), None);
    assert_eq!(service_day(""), None);
}

#[test]
fn last_used_is_latest_service_day() {
    let services = vec![
        service("2026-03-01 10:00:00", &["a", "b"]),
        service("2026-01-01 10:00:00", &["a"]),
        service("bad date", &["b"]),
        service("2026-04-01 10:00:00", &["c"]),
    ];
    assert_eq!(last_used_for("a", &services), Some(d(2026, 3, 1)));
    assert_eq!(last_used_for("b", &services), Some(d(2026, 3, 1)));
    assert_eq!(last_used_for("c", &services), Some(d(2026, 4, 1)));
    assert_eq!(last_used_for("z", &services), None);
}

#[test]
fn usage_filters_keep_used_or_unused_songs() {
    let songs = vec![
        (raw_song("old", &[]), Some(d(2025, 1, 1))),
        (raw_song("new", &[]), Some(d(2026, 5, 1))),
        (raw_song("never", &[]), None),
    ];
    let used = keep_by_usage(songs.clone(), Some(d(2026, 1, 1)), None);
    assert_eq!(used.iter().map(|s| s.0.id.as_str()).collect::<Vec<_>>(), vec!["new"]);
    let unused = keep_by_usage(songs.clone(), None, Some(d(2026, 1, 1)));
    assert_eq!(unused.iter().map(|s| s.0.id.as_str()).collect::<Vec<_>>(), vec!["old", "never"]);
    let on_start = keep_by_usage(songs.clone(), Some(d(2026, 5, 1)), None);
    assert_eq!(on_start.len(), 1);
    assert_eq!(keep_by_usage(songs, None, None).len(), 3);
}

#[test]
fn most_recent_first_with_never_used_last() {
    let sorted = sort_most_recent_first(vec![
        summary("a", Some("2025-01-01")),
        summary("n1", None),
        summary("b", Some("2026-02-01")),
        summary("c", Some("2025-01-01")),
        summary("n2", None),
    ]);
    let ids: Vec<&str> = sorted.iter().map(|s| s.id.as_str()).collect();
    assert_eq!(ids, vec!["b", "a", "c", "n1", "n2"]);
}

#[test]
fn service_day_takes_ten_bytes_or_the_whole_text() {
    // Ten bytes end on a character boundary: "\u{a0}" takes two of them.
    assert_eq!(service_day("\u{a0}2026-1-5x"), Some(d(2026, 1, 5)));
    // Byte ten falls inside "é": the whole text is read, and does not parse.
    assert_eq!(service_day("2026-05-1é"), None);
    // Shorter than ten bytes: the whole text.
    assert_eq!(service_day("2026-5-19"), Some(d(2026, 5, 19)));
}

#[test]
fn text_listing_keeps_active_songs_in_order() {
    let mut b = summary("b", None);
    b.status = "inactive".into();
    let songs = vec![summary("a", None), b, summary("c", None)];
    let ids: Vec<String> = keep_active(songs).into_iter().map(|s| s.id).collect();
    assert_eq!(ids, vec!["a".to_string(), "c".to_string()]);
    let mut odd = summary("d", None);
    odd.status = "Active".into();
    assert!(keep_active(vec![odd]).is_empty());
}
