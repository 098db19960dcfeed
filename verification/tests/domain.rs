use elvanto_cli::api::raw::{
    JsonValue, KeyList, RawArrangement, RawCategory, RawKey, RawPerson, RawPersonDepartment,
    RawPersonDepartments, RawPersonRecord, RawPersonSubDepartment, RawPersonSubDepartments,
    RawService, RawServiceItem, RawServiceItemList, RawServiceLocation, RawServicePlan,
    RawServicePlanList, RawServiceSong, RawServiceSongList, RawServiceType, RawSong,
    RawSongDetail,
};
use elvanto_cli::domain::arrangement::{Arrangement, Key};
use elvanto_cli::domain::category::{category_tree, id_matches, short_id, Category};
use elvanto_cli::domain::person::{collect_departments, Person};
use elvanto_cli::domain::service::Service;
use elvanto_cli::domain::song::{SongDetail, SongSummary};

// ----- categories -----

#[test]
fn from_raw_preserves_fields() {
    let raw = RawCategory { id: "cat-1".into(), name: "Worship".into() };
    let cat: Category = raw.into();
    assert_eq!(cat, Category { id: "cat-1".into(), name: "Worship".into() });
}

#[test]
fn short_id_uses_first_uuid_block() {
    assert_eq!(short_id("02b06b47-c275-11e6-aad3-0219ad55c99b"), "02b06b47");
    assert_eq!(short_id("legacy-id"), "legacy");
    assert_eq!(short_id("c1"), "c1");
}

#[test]
fn id_matches_full_or_short() {
    let full = "02b06b47-c275-11e6-aad3-0219ad55c99b";
    assert!(id_matches(full, full));
    assert!(id_matches(full, "02b06b47"));
    assert!(!id_matches(full, "c275"));
}

#[test]
fn category_tree_skips_empty_ids_and_dedupes() {
    let cats = vec![
        Category { id: "c-1".into(), name: "Hymns".into() },
        Category { id: "".into(), name: "Nameless".into() },
        Category { id: "c-1".into(), name: "Hymns again".into() },
        Category { id: "c-2".into(), name: "Modern".into() },
    ];
    let tree = category_tree(&cats);
    assert_eq!(tree.len(), 2);
    assert_eq!(tree[0].id, "c-1");
    assert_eq!(tree[0].path, vec!["Hymns".to_string()]);
    assert_eq!(tree[1].id, "c-2");
}

// ----- arrangements -----

#[test]
fn empty_ending_key_becomes_none() {
    let raw = RawKey { id: "k1".into(), starting: "G".into(), ending: String::new() };
    let key: Key = raw.into();
    assert_eq!(key.ending, None);
}

#[test]
fn empty_lyrics_chord_chart_become_none() {
    let raw = RawArrangement {
        id: "a1".into(),
        name: "Default".into(),
        keys: KeyList { key: vec![] },
        ..Default::default()
    };
    let arr: Arrangement = raw.into();
    assert!(arr.lyrics.is_none());
    assert!(arr.chord_chart.is_none());
}

#[test]
fn arrangement_keeps_chord_pro_as_chart_and_keys() {
    let raw = RawArrangement {
        id: "a2".into(),
        name: "Live".into(),
        chord_pro: "[G]Amazing".into(),
        bpm: "72".into(),
        keys: KeyList {
            key: vec![RawKey { id: "k".into(), starting: "G".into(), ending: "A".into() }],
        },
        ..Default::default()
    };
    let arr: Arrangement = raw.into();
    assert_eq!(arr.chord_chart.as_deref(), Some("[G]Amazing"));
    assert_eq!(arr.bpm.as_deref(), Some("72"));
    assert_eq!(arr.sequence, None);
    assert_eq!(arr.keys.len(), 1);
    assert_eq!(arr.keys[0].ending.as_deref(), Some("A"));
}

// ----- people -----

fn rec_with_depts() -> RawPersonRecord {
    RawPersonRecord {
        id: "p-1".into(),
        email: "alice@example.com".into(),
        firstname: "Alice".into(),
        preferred_name: "".into(),
        lastname: "Brown".into(),
        status: "Active".into(),
        departments: RawPersonDepartments {
            department: vec![RawPersonDepartment {
                id: "d-1".into(),
                name: "Service Teams".into(),
                sub_departments: RawPersonSubDepartments {
                    sub_department: vec![RawPersonSubDepartment {
                        id: "sd-1".into(),
                        name: "Vocals".into(),
                        positions: Default::default(),
                    }],
                },
            }],
        },
    }
}

#[test]
fn person_from_raw_normalises_fields() {
    let p: Person = rec_with_depts().into();
    assert_eq!(p.id, "p-1");
    assert_eq!(p.name, "Alice Brown");
    assert_eq!(p.email.as_deref(), Some("alice@example.com"));
    assert_eq!(p.status, "active");
    assert_eq!(p.departments.len(), 1);
    assert_eq!(p.departments[0].department, "Service Teams");
    assert_eq!(p.departments[0].sub_department.as_deref(), Some("Vocals"));
}

#[test]
fn person_matches_department_against_dept_or_sub_dept() {
    let p: Person = rec_with_depts().into();
    assert!(p.matches_department(&["Vocals".to_string()]));
    assert!(p.matches_department(&["service teams".to_string()]));
    assert!(!p.matches_department(&["Sound".to_string()]));
    assert!(p.matches_department(&[]));
}

#[test]
fn person_with_no_subdepartment_emits_single_entry() {
    let mut r = rec_with_depts();
    r.departments.department[0].sub_departments.sub_department.clear();
    let p: Person = r.into();
    assert_eq!(p.departments.len(), 1);
    assert_eq!(p.departments[0].sub_department, None);
}

#[test]
fn collect_departments_dedupes_and_marks_parent() {
    let p1 = rec_with_depts();
    let mut p2 = rec_with_depts();
    p2.id = "p-2".into();
    let rows = collect_departments(&[p1, p2]);
    assert_eq!(rows.len(), 2);
    let vocals = rows.iter().find(|r| r.name == "Vocals").unwrap();
    assert_eq!(vocals.parent.as_deref(), Some("Service Teams"));
    let top = rows.iter().find(|r| r.name == "Service Teams").unwrap();
    assert_eq!(top.parent, None);
}

#[test]
fn collect_departments_sorted_by_name_each_id_once() {
    let mut p1 = rec_with_depts();
    p1.departments.department.push(RawPersonDepartment {
        id: "d-0".into(),
        name: "Audio".into(),
        sub_departments: RawPersonSubDepartments { sub_department: vec![] },
    });
    let p2 = rec_with_depts();
    let rows = collect_departments(&[p1, p2]);
    let names: Vec<&str> = rows.iter().map(|r| r.name.as_str()).collect();
    assert_eq!(names, vec!["Audio", "Service Teams", "Vocals"]);
    let mut ids: Vec<&str> = rows.iter().map(|r| r.id.as_str()).collect();
    ids.sort();
    ids.dedup();
    assert_eq!(ids.len(), rows.len());
}

#[test]
fn person_display_name_prefers_preferred() {
    let p = RawPerson {
        id: "p1".into(),
        firstname: "Robert".into(),
        lastname: "Smith".into(),
        preferred_name: "Bob".into(),
    };
    assert_eq!(p.display_name(), "Bob Smith");
}

#[test]
fn person_display_name_falls_back_to_firstname() {
    let p = RawPerson {
        id: "p1".into(),
        firstname: "Robert".into(),
        lastname: "Smith".into(),
        preferred_name: String::new(),
    };
    assert_eq!(p.display_name(), "Robert Smith");
}

#[test]
fn display_name_with_only_last_name() {
    let p = RawPerson {
        id: "p1".into(),
        firstname: "".into(),
        lastname: "Smith".into(),
        preferred_name: String::new(),
    };
    assert_eq!(p.display_name(), "Smith");
}

// ----- services -----

fn raw_service() -> RawService {
    RawService {
        id: "svc-1".into(),
        date: "2026-04-12 09:30:00".into(),
        name: "Sunday Morning".into(),
        description: "Easter".into(),
        status: "Published".into(),
        service_type: RawServiceType { id: "st-1".into(), name: "Sunday Service".into() },
        location: RawServiceLocation { id: "loc-1".into(), name: "Main".into() },
        songs: RawServiceSongList::default(),
        plans: RawServicePlanList::default(),
        volunteers: Default::default(),
    }
}

#[test]
fn from_raw_normalizes_status_to_lowercase() {
    let s: Service = raw_service().into();
    assert_eq!(s.status, "published");
}

#[test]
fn from_raw_flattens_service_type_to_name() {
    let s: Service = raw_service().into();
    assert_eq!(s.service_type, "Sunday Service");
}

#[test]
fn from_raw_empty_status_becomes_unknown() {
    let mut r = raw_service();
    r.status = "".into();
    let s: Service = r.into();
    assert_eq!(s.status, "unknown");
}

#[test]
fn from_raw_empty_location_becomes_none() {
    let mut r = raw_service();
    r.location.name = "".into();
    let s: Service = r.into();
    assert_eq!(s.location, None);
}

#[test]
fn date_short_takes_first_ten_chars() {
    let s: Service = raw_service().into();
    assert_eq!(s.date_short(), "2026-04-12");
}

#[test]
fn date_short_handles_short_string() {
    let mut r = raw_service();
    r.date = "2026".into();
    let s: Service = r.into();
    assert_eq!(s.date_short(), "2026");
}

#[test]
fn service_song_ids_include_sidebar_and_plan_songs() {
    let mut service = raw_service();
    service.songs = RawServiceSongList {
        song: vec![RawServiceSong { id: "sidebar-song".into(), arrangement: Default::default() }],
    };
    service.plans = RawServicePlanList {
        plan: vec![RawServicePlan {
            items: RawServiceItemList {
                item: vec![
                    RawServiceItem { song_id: None, song_key: None },
                    RawServiceItem { song_id: Some("plan-song".into()), song_key: None },
                ],
            },
        }],
    };
    let mut ids = service.song_ids();
    ids.sort();
    assert_eq!(ids, vec!["plan-song", "sidebar-song"]);
}

// ----- songs -----

fn raw_song(status: JsonValue) -> RawSong {
    RawSong {
        id: "s1".into(),
        title: "Amazing Grace".into(),
        artist: "Trad.".into(),
        album: "".into(),
        number: "22025".into(),
        status,
        categories: Default::default(),
    }
}

#[test]
fn numeric_string_status_active() {
    let s: SongSummary = raw_song(JsonValue::String("1".into())).into();
    assert_eq!(s.status, "active");
    assert_eq!(s.ccli_number, "22025");
}

#[test]
fn numeric_string_status_inactive() {
    let s: SongSummary = raw_song(JsonValue::String("0".into())).into();
    assert_eq!(s.status, "archived");
}

#[test]
fn detail_status_active_string_is_active() {
    let detail: SongDetail = RawSongDetail {
        id: "s1".into(),
        title: "Amazing Grace".into(),
        status: JsonValue::String("active".into()),
        ..Default::default()
    }
    .into();
    assert_eq!(detail.status, "active");
}

#[test]
fn numeric_status_one_is_active() {
    let s: SongSummary = raw_song(JsonValue::Number(Some(1))).into();
    assert_eq!(s.status, "active");
    let t: SongSummary = raw_song(JsonValue::Bool(true)).into();
    assert_eq!(t.status, "archived");
}

#[test]
fn collect_departments_keeps_one_sub_department_per_parent() {
    let p1 = rec_with_depts();
    let mut p2 = rec_with_depts();
    p2.id = "p-2".into();
    p2.departments.department[0].id = "d-2".into();
    p2.departments.department[0].name = "Worship".into();
    let rows = collect_departments(&[p1, p2]);
    assert_eq!(rows.len(), 4);
    let vocals: Vec<_> = rows.iter().filter(|r| r.id == "sd-1").collect();
    assert_eq!(vocals.len(), 2);
    let parents: Vec<Option<&str>> = vocals.iter().map(|r| r.parent.as_deref()).collect();
    assert!(parents.contains(&Some("Service Teams")));
    assert!(parents.contains(&Some("Worship")));
}
