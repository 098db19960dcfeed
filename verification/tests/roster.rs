use elvanto_cli::api::raw::{RawPersonRecord, RawService};
use elvanto_cli::credentials::{discover_key, login_key, resolve_api_key, Source};
use elvanto_cli::domain::arrangement::{Arrangement, Key};
use elvanto_cli::domain::person::{Person, PersonDepartmentEntry};
use elvanto_cli::domain::service::VolunteerRow;
use elvanto_cli::error::CliError;
use elvanto_cli::roster::{
    attach_emails, keep_with_email, lookup_email, match_short_service, select_people, select_rows,
    should_try_short_id,
};
use elvanto_cli::song_sheets::{lyrics_of, others_note, plan_chart, transposed_chart, ChartPlan};

fn svc(id: &str) -> RawService {
    RawService { id: id.into(), ..Default::default() }
}

fn row(dept: &str, pos: &str, person: Option<&str>) -> VolunteerRow {
    VolunteerRow {
        department: dept.into(),
        sub_department: "".into(),
        position: pos.into(),
        person_id: person.map(|p| p.into()),
        name: person.map(|p| format!("Name {p}")),
        status: None,
        email: None,
    }
}

fn person(name: &str, status: &str, dept: &str) -> Person {
    Person {
        id: name.into(),
        name: name.into(),
        email: None,
        status: status.into(),
        departments: vec![PersonDepartmentEntry { department: dept.into(), sub_department: None }],
    }
}

fn record(id: &str, email: &str) -> RawPersonRecord {
    RawPersonRecord { id: id.into(), email: email.into(), ..Default::default() }
}

fn arrangement(name: &str, chart: Option<&str>, lyrics: Option<&str>, keys: &[&str]) -> Arrangement {
    Arrangement {
        id: name.into(),
        name: name.into(),
        sequence: None,
        bpm: None,
        duration: None,
        keys: keys.iter().map(|k| Key { id: "k".into(), starting: (*k).into(), ending: None }).collect(),
        lyrics: lyrics.map(|s| s.into()),
        chord_chart: chart.map(|s| s.into()),
    }
}

#[test]
fn short_service_id_matches_one_none_or_many() {
    let services = vec![svc("1eb01e76-7a5d-4d02"), svc("aaaa0000-1"), svc("aaaa0000-2")];
    assert_eq!(match_short_service(&services, "1eb01e76").unwrap(), Some("1eb01e76-7a5d-4d02".to_string()));
    assert_eq!(match_short_service(&services, "ffff").unwrap(), None);
    match match_short_service(&services, "aaaa0000") {
        Err(CliError::Usage(m)) => assert_eq!(
            m,
            "ambiguous id \"aaaa0000\" matches 2 services in the last 6 months; use full id"
        ),
        _ => panic!("expected a usage error"),
    }
    assert!(should_try_short_id(&CliError::NotFound("x".into())));
    assert!(should_try_short_id(&CliError::Api { code: 1, message: "m".into() }));
    assert!(!should_try_short_id(&CliError::Network("x".into())));
}

#[test]
fn roster_rows_filtered_by_department_and_filled() {
    let rows = vec![row("Music", "Keys", Some("p1")), row("Sound", "FOH", None), row("music", "Bass", None)];
    let kept = select_rows(rows.clone(), &vec!["MUSIC".to_string()], false);
    assert_eq!(kept.len(), 2);
    let filled = select_rows(rows.clone(), &vec![], true);
    assert_eq!(filled.len(), 1);
    assert_eq!(filled[0].position, "Keys");
}

#[test]
fn emails_attached_by_person_id() {
    let people = vec![record("p1", "old@x.org"), record("p1", "new@x.org"), record("p2", "")];
    assert_eq!(lookup_email(&people, "p1").as_deref(), Some("new@x.org"));
    assert_eq!(lookup_email(&people, "p2"), None);
    let rows = attach_emails(vec![row("M", "K", Some("p1")), row("M", "B", Some("p2")), row("M", "C", None)], &people);
    assert_eq!(rows[0].email.as_deref(), Some("new@x.org"));
    assert_eq!(rows[1].email, None);
    assert_eq!(rows[2].email, None);
}

#[test]
fn people_filtered_and_sorted_by_name() {
    let people = vec![
        person("Zed", "active", "Music"),
        person("Amy", "inactive", "Music"),
        person("Bob", "active", "Sound"),
        person("Cat", "active", "Music"),
    ];
    let listed = select_people(people.clone(), &vec!["music".to_string()], false);
    let names: Vec<&str> = listed.iter().map(|p| p.name.as_str()).collect();
    assert_eq!(names, vec!["Cat", "Zed"]);
    let all = select_people(people, &vec![], true);
    let names2: Vec<&str> = all.iter().map(|p| p.name.as_str()).collect();
    assert_eq!(names2, vec!["Amy", "Bob", "Cat", "Zed"]);
}

#[test]
fn api_key_sources_in_order() {
    assert_eq!(discover_key(Some("e".into()), Some("k".into())), (Source::Env, Some("e".to_string())));
    assert_eq!(discover_key(Some("".into()), Some("k".into())), (Source::Keyring, Some("k".to_string())));
    assert_eq!(discover_key(None, Some("".into())), (Source::Missing, None));
    assert_eq!(Source::Env.label(), "env (ELVANTO_API_KEY)");
    assert_eq!(Source::Keyring.label(), "keyring");
    assert_eq!(Source::Missing.label(), "none");
    assert_eq!(resolve_api_key(None, Some("k".into())).unwrap(), "k");
    assert_eq!(
        resolve_api_key(None, None).unwrap_err().message(),
        "no API key found; set ELVANTO_API_KEY or run `elvanto auth login`"
    );
    assert_eq!(login_key("  abc \n").unwrap(), "abc");
    assert_eq!(login_key(" \n").unwrap_err().message(), "API key is empty");
}

#[test]
fn chart_plan_and_lyrics() {
    let with_chart = arrangement("Default", Some("[G]Hi"), None, &["G"]);
    assert_eq!(plan_chart(&with_chart, None).unwrap(), ChartPlan::Ready("[G]Hi".into()));
    assert_eq!(plan_chart(&with_chart, Some("+2")).unwrap(), ChartPlan::Transposed("A".into()));
    assert_eq!(plan_chart(&with_chart, Some("bb")).unwrap(), ChartPlan::Transposed("Bb".into()));
    let bare = arrangement("Live", None, None, &[]);
    assert_eq!(plan_chart(&bare, None).unwrap_err().message(), "not found: arrangement \"Live\" has no chord chart");
    assert_eq!(plan_chart(&bare, Some("+1")).unwrap_err().message(), "not found: arrangement \"Live\" has no key");
    assert!(matches!(plan_chart(&bare, Some("Q")), Err(CliError::Usage(_))));
    assert_eq!(lyrics_of(&bare).unwrap_err().message(), "not found: arrangement \"Live\" has no lyrics");
    assert_eq!(lyrics_of(&arrangement("A", None, Some("la la"), &[])).unwrap(), "la la");
    assert_eq!(
        transposed_chart(bare.clone(), "C").unwrap_err().message(),
        "not found: Elvanto returned no transposed chord chart for C"
    );
    assert_eq!(transposed_chart(with_chart.clone(), "C").unwrap(), "[G]Hi");
}

#[test]
fn other_arrangements_note() {
    let a = arrangement("Acoustic", None, None, &[]);
    let b = arrangement("Live", None, None, &[]);
    assert_eq!(others_note(&vec![&a, &b]).as_deref(), Some("\n(other arrangements: Acoustic, Live)"));
    assert_eq!(others_note(&vec![]), None);
}

#[test]
fn pages_of_people_keep_those_with_email_and_count_each_id_once() {
    let mut ids: Vec<String> = Vec::new();
    let page1 = vec![record("p1", "a@x"), record("p2", ""), record("p3", "c@x")];
    let kept1 = keep_with_email(page1, &mut ids);
    let kept1_ids: Vec<&str> = kept1.iter().map(|p| p.id.as_str()).collect();
    assert_eq!(kept1_ids, vec!["p1", "p3"]);
    assert_eq!(ids, vec!["p1".to_string(), "p3".to_string()]);
    let page2 = vec![record("p3", "c2@x"), record("p4", "d@x"), record("p2", "")];
    let kept2 = keep_with_email(page2, &mut ids);
    assert_eq!(kept2.len(), 2);
    assert_eq!(ids, vec!["p1".to_string(), "p3".to_string(), "p4".to_string()]);
}
