use elvanto_cli::auto_flags::{apply, inject, injection_point, splice_words};
use std::collections::HashMap;

fn argv(parts: &[&str]) -> Vec<String> {
    parts.iter().map(|s| s.to_string()).collect()
}

fn env(pairs: &[(&str, &str)]) -> impl Fn(&str) -> Option<String> {
    let map: HashMap<String, String> =
        pairs.iter().map(|(k, v)| (k.to_string(), v.to_string())).collect();
    move |k| map.get(k).cloned()
}

#[test]
fn no_env_var_set_returns_args_unchanged() {
    let result = apply(argv(&["elvanto", "services", "list"]), env(&[])).argv;
    assert_eq!(result, argv(&["elvanto", "services", "list"]));
}

#[test]
fn empty_env_var_is_ignored() {
    let result = apply(argv(&["elvanto", "services", "list"]), env(&[("ELVANTO_SERVICES_LIST", "  ")])).argv;
    assert_eq!(result, argv(&["elvanto", "services", "list"]));
}

#[test]
fn env_injects_flags_after_subcommand_path() {
    let result = apply(
        argv(&["elvanto", "services", "list"]),
        env(&[("ELVANTO_SERVICES_LIST", "--json --full-id")]),
    ).argv;
    assert_eq!(result, argv(&["elvanto", "services", "list", "--json", "--full-id"]));
}

#[test]
fn env_injects_for_two_level_path_keeping_positionals() {
    let result = apply(
        argv(&["elvanto", "services", "people", "abc"]),
        env(&[("ELVANTO_SERVICES_PEOPLE", "--hide-unfilled")]),
    ).argv;
    assert_eq!(result, argv(&["elvanto", "services", "people", "--hide-unfilled", "abc"]));
}

#[test]
fn manual_flag_after_path_disables_injection() {
    let result = apply(
        argv(&["elvanto", "services", "list", "--json"]),
        env(&[("ELVANTO_SERVICES_LIST", "--full-id")]),
    ).argv;
    assert_eq!(result, argv(&["elvanto", "services", "list", "--json"]));
}

#[test]
fn no_env_flag_disables_injection_even_when_var_set() {
    let result = apply(
        argv(&["elvanto", "--no-env", "services", "list"]),
        env(&[("ELVANTO_SERVICES_LIST", "--json")]),
    ).argv;
    assert_eq!(result, argv(&["elvanto", "--no-env", "services", "list"]));
}

#[test]
fn shell_quoting_in_env_value_is_respected() {
    let result = apply(
        argv(&["elvanto", "songs", "chart", "abc"]),
        env(&[("ELVANTO_SONGS_CHART", "--arrangement \"Acoustic Set\"")]),
    ).argv;
    assert_eq!(
        result,
        argv(&["elvanto", "songs", "chart", "--arrangement", "Acoustic Set", "abc"])
    );
}

#[test]
fn unparseable_env_value_is_ignored() {
    let result = apply(
        argv(&["elvanto", "services", "list"]),
        env(&[("ELVANTO_SERVICES_LIST", "--foo \"bar")]),
    ).argv;
    assert_eq!(result, argv(&["elvanto", "services", "list"]));
}

#[test]
fn unknown_top_level_subcommand_still_works() {
    let result = apply(argv(&["elvanto", "future", "--id"]), env(&[("ELVANTO_FUTURE", "--debug")])).argv;
    assert_eq!(result, argv(&["elvanto", "future", "--id"]));
}

#[test]
fn empty_argv_after_binary_returns_unchanged() {
    let result = apply(argv(&["elvanto"]), env(&[("ELVANTO_X", "--y")])).argv;
    assert_eq!(result, argv(&["elvanto"]));
}

#[test]
fn injection_point_names_variable_and_position() {
    let (key, at, manual) = injection_point(&argv(&["elvanto", "-v", "songs", "list", "x"])).unwrap();
    assert_eq!(key, "ELVANTO_SONGS_LIST");
    assert_eq!(at, 4);
    assert!(!manual);
    let (key1, at1, manual1) = injection_point(&argv(&["elvanto", "future", "x"])).unwrap();
    assert_eq!(key1, "ELVANTO_FUTURE");
    assert_eq!(at1, 2);
    assert!(!manual1);
    let (key2, at2, manual2) = injection_point(&argv(&["elvanto", "people", "list"])).unwrap();
    assert_eq!(key2, "ELVANTO_PEOPLE");
    assert_eq!(at2, 2);
    assert!(!manual2);
    let (key3, at3, manual3) = injection_point(&argv(&["elvanto", "services", "list", "--json"])).unwrap();
    assert_eq!(key3, "ELVANTO_SERVICES_LIST");
    assert_eq!(at3, 3);
    assert!(manual3);
    assert!(injection_point(&argv(&["elvanto", "--json"])).is_none());
    assert!(injection_point(&argv(&["elvanto", "--no-env", "services", "list"])).is_none());
}

#[test]
fn people_is_a_single_level_path() {
    let result = apply(argv(&["elvanto", "people", "list"]), env(&[("ELVANTO_PEOPLE", "--json")]));
    assert_eq!(result.argv, argv(&["elvanto", "people", "--json", "list"]));
    let untouched = apply(argv(&["elvanto", "people", "list"]), env(&[("ELVANTO_PEOPLE_LIST", "--json")]));
    assert_eq!(untouched.argv, argv(&["elvanto", "people", "list"]));
    assert!(untouched.note.is_none());
}

#[test]
fn applied_defaults_are_noted() {
    let result = apply(argv(&["elvanto", "services", "list"]), env(&[("ELVANTO_SERVICES_LIST", " --id long ")]));
    assert_eq!(result.argv, argv(&["elvanto", "services", "list", "--id", "long"]));
    let note = result.note.unwrap();
    assert!(note.applied);
    assert_eq!(note.key, "ELVANTO_SERVICES_LIST");
    assert_eq!(note.value, "--id long");
    let line = note.render();
    assert_eq!(line, "note: applied ELVANTO_SERVICES_LIST defaults: --id long");
    assert!(line.contains("applied ELVANTO_SERVICES_LIST defaults"));
    assert!(line.contains("--id long"));
}

#[test]
fn suppressed_defaults_are_noted() {
    let result = apply(
        argv(&["elvanto", "services", "list", "--json"]),
        env(&[("ELVANTO_SERVICES_LIST", "--id long")]),
    );
    assert_eq!(result.argv, argv(&["elvanto", "services", "list", "--json"]));
    let note = result.note.unwrap();
    assert!(!note.applied);
    let line = note.render();
    assert_eq!(
        line,
        "note: ELVANTO_SERVICES_LIST defaults suppressed by manual flag; would have applied: --id long"
    );
    assert!(line.contains("ELVANTO_SERVICES_LIST defaults suppressed by manual flag"));
    assert!(line.contains("would have applied: --id long"));
}

#[test]
fn no_env_gives_no_note() {
    let result = apply(
        argv(&["elvanto", "--no-env", "services", "list"]),
        env(&[("ELVANTO_SERVICES_LIST", "--id long")]),
    );
    assert_eq!(result.argv, argv(&["elvanto", "--no-env", "services", "list"]));
    assert!(result.note.is_none());
}

#[test]
fn blank_or_unsplittable_defaults_give_no_note() {
    let blank = apply(argv(&["elvanto", "services", "list"]), env(&[("ELVANTO_SERVICES_LIST", "   ")]));
    assert!(blank.note.is_none());
    let broken = apply(argv(&["elvanto", "services", "list"]), env(&[("ELVANTO_SERVICES_LIST", "--foo \"bar")]));
    assert!(broken.note.is_none());
    let unset = apply(argv(&["elvanto", "services", "list", "--json"]), env(&[]));
    assert!(unset.note.is_none());
}

#[test]
fn splice_words_inserts_at_position() {
    let args = argv(&["a", "b"]);
    assert_eq!(splice_words(args.clone(), 1, Some(argv(&["x", "y"]))), argv(&["a", "x", "y", "b"]));
    assert_eq!(splice_words(args.clone(), 2, Some(argv(&["z"]))), argv(&["a", "b", "z"]));
    assert_eq!(splice_words(args.clone(), 0, Some(Vec::new())), args);
    assert_eq!(splice_words(args.clone(), 0, None), args);
}

#[test]
fn single_level_path_injects_for_unknown_command() {
    let result = apply(argv(&["elvanto", "future"]), env(&[("ELVANTO_FUTURE", "--debug")])).argv;
    assert_eq!(result, argv(&["elvanto", "future", "--debug"]));
}

#[test]
fn inject_splits_and_splices() {
    let args = argv(&["a", "b", "c"]);
    assert_eq!(inject(args.clone(), 1, Some("x 'y z'".into())), argv(&["a", "x", "y z", "b", "c"]));
    assert_eq!(inject(args.clone(), 3, None), args);
    assert_eq!(inject(args.clone(), 0, Some("\"".into())), args);
}
