use elvanto_cli::arrangement_select::select;
use elvanto_cli::domain::arrangement::Arrangement;
use elvanto_cli::error::CliError;

fn arr(name: &str) -> Arrangement {
    Arrangement {
        id: name.into(),
        name: name.into(),
        sequence: None,
        bpm: None,
        duration: None,
        keys: vec![],
        lyrics: None,
        chord_chart: None,
    }
}

fn arr_with_id(id: &str, name: &str) -> Arrangement {
    Arrangement {
        id: id.into(),
        name: name.into(),
        sequence: None,
        bpm: None,
        duration: None,
        keys: vec![],
        lyrics: None,
        chord_chart: None,
    }
}

#[test]
fn empty_list_errors() {
    assert!(matches!(select(&[], None), Err(CliError::NotFound(_))));
}

#[test]
fn default_is_picked_when_no_request() {
    let list = vec![arr("Acoustic"), arr("Default"), arr("Live")];
    let sel = select(&list, None).unwrap();
    assert_eq!(sel.chosen.name, "Default");
    assert_eq!(sel.others.len(), 2);
}

#[test]
fn falls_back_to_first_without_default() {
    let list = vec![arr("Acoustic"), arr("Live")];
    let sel = select(&list, None).unwrap();
    assert_eq!(sel.chosen.name, "Acoustic");
}

#[test]
fn requested_match_by_short_id() {
    let list = vec![
        arr_with_id("a1b2c3d4-aaaa-bbbb-cccc-acoustic000", "Acoustic"),
        arr_with_id("d5e6f7g8-aaaa-bbbb-cccc-default0000", "Default"),
    ];
    let sel = select(&list, Some("a1b2c3d4")).unwrap();
    assert_eq!(sel.chosen.name, "Acoustic");
}

#[test]
fn requested_match_by_full_id() {
    let full = "a1b2c3d4-aaaa-bbbb-cccc-acoustic000";
    let list = vec![arr_with_id(full, "Acoustic"), arr_with_id("d", "Default")];
    let sel = select(&list, Some(full)).unwrap();
    assert_eq!(sel.chosen.name, "Acoustic");
}

#[test]
fn missing_request_errors_with_usage_including_short_ids() {
    let list = vec![arr_with_id("abcd1234-x-y-z-default", "Default")];
    match select(&list, Some("zzzzzzzz")) {
        Err(CliError::Usage(msg)) => {
            assert!(msg.contains("not found"));
            assert!(msg.contains("abcd1234"));
            assert!(msg.contains("Default"));
        }
        other => panic!("expected Usage error, got {other:?}"),
    }
}

#[test]
fn default_name_match_ignores_case() {
    let list = vec![arr("Acoustic"), arr("DEFAULT")];
    let sel = select(&list, None).unwrap();
    assert_eq!(sel.chosen.name, "DEFAULT");
    assert_eq!(sel.others.len(), 1);
    assert_eq!(sel.others[0].name, "Acoustic");
}

#[test]
fn missing_request_lists_every_arrangement() {
    let list = vec![arr_with_id("aaaa1111-x", "One"), arr_with_id("bbbb2222-y", "Two")];
    match select(&list, Some("cccc")) {
        Err(CliError::Usage(msg)) => {
            assert_eq!(msg, "arrangement id \"cccc\" not found; available: aaaa1111 (One), bbbb2222 (Two)");
        }
        other => panic!("expected Usage error, got {other:?}"),
    }
}
