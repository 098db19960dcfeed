use elvanto_cli::api::raw::{
    JsonValue, RawPerson, RawPosition, RawPositionList, RawService, RawServiceArrangement,
    RawServiceItem, RawServiceItemList, RawServicePlan, RawServicePlanList, RawServiceSong,
    RawServiceSongList, RawServiceVolunteers, RawSong, RawVolunteer, RawVolunteerPlan,
    RawVolunteersField,
};
use elvanto_cli::song_usage::{find_worship_leader, tally_song_usage};
use elvanto_cli::usage_report::{order_by_title, select_for_report, song_title, write_usage_report};

fn song(id: &str, key: Option<&str>) -> RawServiceSong {
    RawServiceSong { id: id.into(), arrangement: RawServiceArrangement { key: key.map(|k| k.into()) } }
}

fn item(id: Option<&str>, key: Option<&str>) -> RawServiceItem {
    RawServiceItem { song_id: id.map(|s| s.into()), song_key: key.map(|k| k.into()) }
}

fn leader_roster(position: &str, first: &str) -> RawServiceVolunteers {
    RawServiceVolunteers {
        plan: vec![RawVolunteerPlan {
            positions: RawPositionList {
                position: vec![
                    RawPosition { position_name: "Sound".into(), ..Default::default() },
                    RawPosition {
                        position_name: position.into(),
                        volunteers: RawVolunteersField {
                            volunteer: vec![RawVolunteer {
                                person: RawPerson {
                                    id: "p".into(),
                                    firstname: first.into(),
                                    lastname: "Lee".into(),
                                    preferred_name: "".into(),
                                },
                                status: "Confirmed".into(),
                            }],
                        },
                        ..Default::default()
                    },
                ],
            },
        }],
    }
}

fn service(date: &str, songs: Vec<RawServiceSong>, items: Vec<RawServiceItem>, leader: &str) -> RawService {
    RawService {
        id: format!("svc-{date}"),
        date: date.into(),
        songs: RawServiceSongList { song: songs },
        plans: RawServicePlanList { plan: vec![RawServicePlan { items: RawServiceItemList { item: items } }] },
        volunteers: leader_roster("Worship Leader", leader),
        ..Default::default()
    }
}

fn raw_song(id: &str, title: &str, artist: &str) -> RawSong {
    RawSong {
        id: id.into(),
        title: title.into(),
        artist: artist.into(),
        album: "".into(),
        number: "".into(),
        status: JsonValue::Null,
        categories: Default::default(),
    }
}

#[test]
fn song_uses_sorted_with_plan_keys_winning() {
    let svc = service(
        "2026-05-03 09:00:00",
        vec![song("b", Some("G")), song("a", None), song("b", Some("D")), song("", Some("E"))],
        vec![item(Some("b"), Some("A")), item(Some("b"), None), item(Some("c"), None), item(None, Some("F"))],
        "Ann",
    );
    let uses = svc.song_uses();
    let got: Vec<(String, Option<String>)> = uses.into_iter().map(|u| (u.id, u.key)).collect();
    assert_eq!(
        got,
        vec![("a".to_string(), None), ("b".to_string(), Some("A".to_string())), ("c".to_string(), None)]
    );
}

#[test]
fn song_ids_keep_first_occurrence_order() {
    let svc = service(
        "2026-05-03",
        vec![song("z", None), song("y", None), song("z", None)],
        vec![item(Some("x"), None), item(Some("y"), None)],
        "Ann",
    );
    assert_eq!(svc.song_ids(), vec!["z".to_string(), "y".to_string(), "x".to_string()]);
}

#[test]
fn worship_leader_found_by_position_name() {
    let svc = service("2026-05-03", vec![], vec![], "Ann");
    assert_eq!(find_worship_leader(&svc), "Ann Lee");
    let mut other = service("2026-05-03", vec![], vec![], "Ann");
    other.volunteers = leader_roster("Keys", "Bo");
    assert_eq!(find_worship_leader(&other), "");
    let mut upper = service("2026-05-03", vec![], vec![], "Ann");
    upper.volunteers = leader_roster("Lead: WORSHIP LEADER", "Cy");
    assert_eq!(find_worship_leader(&upper), "Cy Lee");
}

#[test]
fn tally_groups_uses_by_song_in_service_order() {
    let services = vec![
        service("2026-05-03 09:00:00", vec![song("b", Some("G"))], vec![], "Ann"),
        service("2026-05-10 09:00:00", vec![song("a", None), song("b", None)], vec![], "Bo"),
    ];
    let tally = tally_song_usage(&services);
    assert_eq!(tally.len(), 2);
    assert_eq!(tally[0].id, "a");
    assert_eq!(tally[0].uses.len(), 1);
    assert_eq!(tally[0].uses[0].date, "2026-05-10");
    assert_eq!(tally[0].uses[0].leader, "Bo Lee");
    assert_eq!(tally[1].id, "b");
    assert_eq!(tally[1].uses.len(), 2);
    assert_eq!(tally[1].uses[0].date, "2026-05-03");
    assert_eq!(tally[1].uses[0].key.as_deref(), Some("G"));
    assert_eq!(tally[1].uses[1].key, None);
}

#[test]
fn report_selects_rare_or_single_leader_songs_fewest_first() {
    let services = vec![
        service("2026-01-04", vec![song("a", None), song("b", None), song("c", None)], vec![], "Ann"),
        service("2026-01-11", vec![song("a", None), song("b", None)], vec![], "Bo"),
        service("2026-01-18", vec![song("a", None), song("b", None)], vec![], "Bo"),
        service("2026-01-25", vec![song("b", None)], vec![], "Bo"),
    ];
    let tally = tally_song_usage(&services);
    let picked = select_for_report(tally.clone(), 2, false);
    let ids: Vec<&str> = picked.iter().map(|u| u.id.as_str()).collect();
    assert_eq!(ids, vec!["c"]);
    let none = select_for_report(tally.clone(), 0, false);
    assert!(none.is_empty());
    let mut solo = services.clone();
    solo[0].volunteers = leader_roster("Worship Leader", "Bo");
    let picked2 = select_for_report(tally_song_usage(&solo), 1, true);
    let ids2: Vec<&str> = picked2.iter().map(|u| u.id.as_str()).collect();
    assert_eq!(ids2, vec!["c", "a", "b"]);
}

#[test]
fn report_text_is_exact() {
    let mut second = service("2026-01-11 10:00:00", vec![song("s1", None), song("s2", Some(""))], vec![], "");
    second.volunteers = RawServiceVolunteers::default();
    let services = vec![service("2026-01-04 10:00:00", vec![song("s1", Some("G"))], vec![], "Ann"), second];
    let songs = vec![raw_song("s1", "Amazing Grace", "Trad."), raw_song("s1", "Amazing Grace (new)", "")];
    let picked = select_for_report(tally_song_usage(&services), 2, false);
    let mut out = String::new();
    write_usage_report(&mut out, &picked, &songs, 2, false);
    let expected = "Songs sung ≤ 2 times in the last 12 months:\n\n\
\"<unknown>\" — sung once\n  2026-01-11 — (unknown leader)\n\n\
\"Amazing Grace (new)\" — sung twice\n  2026-01-04 — Led by Ann Lee (G)\n  2026-01-11 — (unknown leader)\n\n\
2 songs total.\n";
    assert_eq!(out, expected);
    let mut empty = String::new();
    write_usage_report(&mut empty, &vec![], &songs, 2, true);
    assert_eq!(empty, "No songs found matching the criteria.\n");
}

#[test]
fn full_listing_is_ordered_by_title() {
    let services = vec![service("2026-01-04", vec![song("x", None), song("y", None), song("z", None)], vec![], "Ann")];
    let songs = vec![raw_song("x", "Zion", "A"), raw_song("y", "Abide", "B")];
    let ordered = order_by_title(tally_song_usage(&services), &songs);
    let ids: Vec<&str> = ordered.iter().map(|u| u.id.as_str()).collect();
    assert_eq!(ids, vec!["z", "y", "x"]);
    assert_eq!(song_title(&songs, "y").as_deref(), Some("Abide"));
    assert_eq!(song_title(&songs, "q"), None);
}

#[test]
fn song_uses_name_the_non_empty_song_ids() {
    let svc = service(
        "2026-05-03",
        vec![song("", Some("E")), song("m", None)],
        vec![item(Some("k"), Some("C")), item(Some(""), None)],
        "Ann",
    );
    let mut ids: Vec<String> = svc.song_ids().into_iter().filter(|s| !s.is_empty()).collect();
    ids.sort();
    let uses: Vec<String> = svc.song_uses().into_iter().map(|u| u.id).collect();
    assert_eq!(uses, ids);
    assert_eq!(svc.song_ids().len(), 3);
}
