use elvanto_cli::resolve::{dedupe, looks_like_id, resolve, resolve_all, NodeKind, TreeNode};

fn n(id: &str, kind: NodeKind, path: &[&str]) -> TreeNode {
    TreeNode {
        id: id.into(),
        path: path.iter().map(|s| (*s).into()).collect(),
        kind,
    }
}

fn sample_tree() -> Vec<TreeNode> {
    vec![
        n("d1aaaaaa-bbbb-cccc-dddd-eeeeeeeeeeee", NodeKind::Department, &["Music Team"]),
        n(
            "5d1aaaaa-bbbb-cccc-dddd-eeeeeeeeeeee",
            NodeKind::SubDepartment,
            &["Music Team", "Vocals"],
        ),
        n(
            "01aaaaaa-bbbb-cccc-dddd-eeeeeeeeeeee",
            NodeKind::Position,
            &["Music Team", "Vocals", "Worship Leader"],
        ),
        n(
            "02aaaaaa-bbbb-cccc-dddd-eeeeeeeeeeee",
            NodeKind::Position,
            &["Music Team", "Vocals", "BV"],
        ),
        n(
            "5d2aaaaa-bbbb-cccc-dddd-eeeeeeeeeeee",
            NodeKind::SubDepartment,
            &["Music Team", "Instruments"],
        ),
        n(
            "03aaaaaa-bbbb-cccc-dddd-eeeeeeeeeeee",
            NodeKind::Position,
            &["Music Team", "Instruments", "Leader"],
        ),
        n("d2aaaaaa-bbbb-cccc-dddd-eeeeeeeeeeee", NodeKind::Department, &["Welcome Team"]),
        n(
            "04aaaaaa-bbbb-cccc-dddd-eeeeeeeeeeee",
            NodeKind::Position,
            &["Welcome Team", "Leader"],
        ),
    ]
}

const VOCALS_ID: &str = "5d1aaaaa-bbbb-cccc-dddd-eeeeeeeeeeee";
const WL_ID: &str = "01aaaaaa-bbbb-cccc-dddd-eeeeeeeeeeee";
const INSTR_LEADER_ID: &str = "03aaaaaa-bbbb-cccc-dddd-eeeeeeeeeeee";

#[test]
fn looks_like_id_detects_hex_forms() {
    assert!(looks_like_id("02b06b47"));
    assert!(looks_like_id("02b06b47-c275-11e6-aad3-0219ad55c99b"));
    assert!(looks_like_id("ABCDEF01-1234"));
    assert!(!looks_like_id("Vocals"));
    assert!(!looks_like_id("Music Team"));
    assert!(!looks_like_id("abc"));
    assert!(!looks_like_id("ghijkl12"));
}

#[test]
fn id_query_returns_full_id_for_short_or_full() {
    let tree = sample_tree();
    assert_eq!(resolve("5d1aaaaa", &tree).unwrap(), "5d1aaaaa-bbbb-cccc-dddd-eeeeeeeeeeee");
    assert_eq!(
        resolve("5d1aaaaa-bbbb-cccc-dddd-eeeeeeeeeeee", &tree).unwrap(),
        "5d1aaaaa-bbbb-cccc-dddd-eeeeeeeeeeee"
    );
}

#[test]
fn id_miss_is_hard_error_no_name_fallback() {
    let tree = sample_tree();
    let err = resolve("deadbe01", &tree).unwrap_err();
    let msg = err.message();
    assert!(msg.contains("treated as id"));
    assert!(msg.contains("deadbe01"));
}

#[test]
fn name_query_resolves_unique_segment() {
    let tree = sample_tree();
    assert_eq!(resolve("Vocals", &tree).unwrap(), VOCALS_ID);
    assert_eq!(resolve("Worship Leader", &tree).unwrap(), WL_ID);
}

#[test]
fn name_query_is_case_insensitive() {
    let tree = sample_tree();
    assert_eq!(resolve("vocals", &tree).unwrap(), VOCALS_ID);
    assert_eq!(resolve("VOCALS", &tree).unwrap(), VOCALS_ID);
}

#[test]
fn path_query_disambiguates_collisions() {
    let tree = sample_tree();
    let err = resolve("Leader", &tree).unwrap_err();
    let msg = err.message();
    assert!(msg.contains("matches 2 nodes"));
    assert!(msg.contains("Music Team / Instruments / Leader"));
    assert!(msg.contains("Welcome Team / Leader"));
    assert_eq!(resolve("Music Team/Instruments/Leader", &tree).unwrap(), INSTR_LEADER_ID);
    assert_eq!(resolve("Instruments/Leader", &tree).unwrap(), INSTR_LEADER_ID);
}

#[test]
fn unique_prefix_resolves_when_no_exact_match() {
    let tree = vec![
        n(
            "ca1aaaaa-bbbb-cccc-dddd-eeeeeeeeeeee",
            NodeKind::Category,
            &["Contemporary (0-5 Years Old)"],
        ),
        n("ca2aaaaa-bbbb-cccc-dddd-eeeeeeeeeeee", NodeKind::Category, &["Hymns"]),
    ];
    assert_eq!(resolve("Contemporary", &tree).unwrap(), "ca1aaaaa-bbbb-cccc-dddd-eeeeeeeeeeee");
}

#[test]
fn ambiguous_prefix_match_errors_with_table() {
    let tree = vec![
        n("ca1aaaaa-bbbb-cccc-dddd-eeeeeeeeeeee", NodeKind::Category, &["Worship Songs"]),
        n("ca2aaaaa-bbbb-cccc-dddd-eeeeeeeeeeee", NodeKind::Category, &["Worship Old"]),
    ];
    let err = resolve("Worship", &tree).unwrap_err();
    let msg = err.message();
    assert!(msg.contains("matches 2 nodes"));
    assert!(msg.contains("Worship Songs"));
    assert!(msg.contains("Worship Old"));
}

#[test]
fn exact_match_wins_over_prefix_when_both_could_apply() {
    let tree = vec![
        n("d1aaaaaa-bbbb-cccc-dddd-eeeeeeeeeeee", NodeKind::Department, &["Music Team"]),
        n("d2aaaaaa-bbbb-cccc-dddd-eeeeeeeeeeee", NodeKind::Department, &["Music Team Setup"]),
    ];
    assert_eq!(resolve("Music Team", &tree).unwrap(), "d1aaaaaa-bbbb-cccc-dddd-eeeeeeeeeeee");
}

#[test]
fn path_with_prefix_on_last_segment() {
    let tree = sample_tree();
    assert_eq!(resolve("Music Team/Voc", &tree).unwrap(), "5d1aaaaa-bbbb-cccc-dddd-eeeeeeeeeeee");
}

#[test]
fn no_match_suggests_via_jaro_winkler() {
    let tree = sample_tree();
    let err = resolve("voclas", &tree).unwrap_err();
    let msg = err.message();
    assert!(msg.contains("Did you mean"));
    assert!(msg.contains("Vocals"));
}

#[test]
fn no_match_without_close_neighbours_is_terse() {
    let tree = sample_tree();
    let err = resolve("xyzzy", &tree).unwrap_err();
    let msg = err.message();
    assert!(msg.contains("no match"));
    assert!(!msg.contains("Did you mean"));
}

#[test]
fn empty_query_errors() {
    assert!(resolve("", &sample_tree()).is_err());
    assert!(resolve("   ", &sample_tree()).is_err());
}

#[test]
fn resolve_all_short_circuits_on_first_failure() {
    let tree = sample_tree();
    let queries = vec!["Vocals".to_string(), "Leader".to_string()];
    let err = resolve_all(&queries, &tree).unwrap_err();
    assert!(err.message().contains("matches 2 nodes"));
}

#[test]
fn dedupe_keeps_first_occurrence() {
    let nodes = vec![
        n("x-1", NodeKind::Department, &["A"]),
        n("x-1", NodeKind::Department, &["A"]),
        n("y-2", NodeKind::Department, &["B"]),
    ];
    let out = dedupe(nodes);
    assert_eq!(out.len(), 2);
    assert_eq!(out[0].id, "x-1");
    assert_eq!(out[1].id, "y-2");
}

#[test]
fn id_lookup_ignores_case_of_query() {
    let tree = sample_tree();
    assert_eq!(resolve("5D1AAAAA", &tree).unwrap(), VOCALS_ID);
}

#[test]
fn resolved_id_is_a_node_of_the_tree() {
    let tree = sample_tree();
    for q in ["Vocals", "BV", "Welcome Team", "Music Team/Instruments", "02aaaaaa"] {
        let id = resolve(q, &tree).unwrap();
        assert!(tree.iter().any(|node| node.id == id));
    }
}

#[test]
fn resolve_all_returns_ids_in_order() {
    let tree = sample_tree();
    let queries = vec!["Vocals".to_string(), "BV".to_string()];
    let ids = resolve_all(&queries, &tree).unwrap();
    assert_eq!(ids, vec![VOCALS_ID.to_string(), "02aaaaaa-bbbb-cccc-dddd-eeeeeeeeeeee".to_string()]);
}

#[test]
fn dedupe_output_has_each_id_once() {
    let nodes = vec![
        n("a-1", NodeKind::Category, &["A"]),
        n("b-1", NodeKind::Category, &["B"]),
        n("a-1", NodeKind::Category, &["A again"]),
        n("c-1", NodeKind::Category, &["C"]),
        n("b-1", NodeKind::Category, &["B again"]),
    ];
    let out = dedupe(nodes);
    let ids: Vec<&str> = out.iter().map(|x| x.id.as_str()).collect();
    assert_eq!(ids, vec!["a-1", "b-1", "c-1"]);
    assert_eq!(out[0].path, vec!["A".to_string()]);
}

#[test]
fn path_and_prefix_queries_ignore_case() {
    let tree = sample_tree();
    let a = resolve("Music Team/Instruments", &tree).unwrap();
    assert_eq!(resolve("music team/INSTRUMENTS", &tree).unwrap(), a);
    assert_eq!(resolve("  MUSIC TEAM / instruments ", &tree).unwrap(), a);
    assert!(resolve("Nothing Here", &tree).is_err());
    assert!(resolve("nOTHING hERE", &tree).is_err());
}

#[test]
fn dedupe_twice_is_dedupe_once() {
    let nodes = vec![
        n("a-1", NodeKind::Category, &["A"]),
        n("b-1", NodeKind::Category, &["B"]),
        n("a-1", NodeKind::Category, &["A again"]),
    ];
    let once = dedupe(nodes);
    let once_ids: Vec<String> = once.iter().map(|x| x.id.clone()).collect();
    let twice = dedupe(once);
    let twice_ids: Vec<String> = twice.iter().map(|x| x.id.clone()).collect();
    assert_eq!(once_ids, twice_ids);
    assert_eq!(twice_ids, vec!["a-1".to_string(), "b-1".to_string()]);
}
