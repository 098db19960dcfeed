use elvanto_cli::api::raw::RawSong;
use elvanto_cli::domain::arrangement::{Arrangement, Key};
use elvanto_cli::song_export::{export_row, KeyRecord};

fn song() -> RawSong {
    RawSong { id: "s-1".into(), title: "Amazing".into(), artist: "Newton".into(), ..Default::default() }
}

fn arrangement(keys: &[&str]) -> Arrangement {
    Arrangement {
        id: "a-1".into(),
        name: "Default".into(),
        sequence: None,
        bpm: None,
        duration: None,
        keys: keys.iter().map(|k| Key { id: "k".into(), starting: (*k).into(), ending: None }).collect(),
        lyrics: None,
        chord_chart: None,
    }
}

fn rec(name: &str, starting: &str, added: &str) -> KeyRecord {
    KeyRecord { name: name.into(), starting: starting.into(), date_added: added.into() }
}

#[test]
fn newest_record_for_each_voice_wins() {
    let records = vec![
        rec("Male", "G", "2024-01-01 10:00:00"),
        rec("Female", "C", "2024-03-01 10:00:00"),
        rec("Male", "A", "2025-02-01 09:00:00"),
        rec("Male", "F", "2023-12-31 23:59:59"),
        rec("Female", "D", "2024-03-01 10:00:00"),
    ];
    let row = export_row(&song(), &arrangement(&["G"]), Some("E".into()), None, &records);
    assert_eq!(row.song_id, "s-1");
    assert_eq!(row.song_title, "Amazing");
    assert_eq!(row.song_artist, "Newton");
    assert_eq!(row.arrangement_id, "a-1");
    assert_eq!(row.arrangement_name, "Default");
    assert_eq!(row.key_male.as_deref(), Some("A"));
    // Equal dates: the first record added at that date stays.
    assert_eq!(row.key_female.as_deref(), Some("C"));
    assert_eq!(row.starting_keys, "G, C, A, F, D");
}

#[test]
fn without_records_the_arrangement_keys_stay() {
    let row = export_row(&song(), &arrangement(&["Bb", "Bb"]), Some("Bb".into()), Some("Eb".into()), &vec![]);
    assert_eq!(row.key_male.as_deref(), Some("Bb"));
    assert_eq!(row.key_female.as_deref(), Some("Eb"));
    assert_eq!(row.starting_keys, "Bb, Bb");
}

#[test]
fn undated_or_other_records_only_add_starting_keys() {
    let records = vec![rec("Male", "C", ""), rec("Choir", "D", "2024-01-01 00:00:00")];
    let row = export_row(&song(), &arrangement(&[]), None, None, &records);
    assert_eq!(row.key_male, None);
    assert_eq!(row.key_female, None);
    assert_eq!(row.starting_keys, "C, D");
}
