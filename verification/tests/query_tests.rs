use nett_icon_viewer::engine::QueryEngine;
use nett_icon_viewer::icon::IconData;
use nett_icon_viewer::query::FilterMode;
use nett_icon_viewer::query::QuerySettings;
use nett_icon_viewer::query::category_matches;
use nett_icon_viewer::query::cycle_filter_mode;
use nett_icon_viewer::query::filter_mode_check_state;
use nett_icon_viewer::query::required_tags_hold;
use nett_icon_viewer::query::run_query;

fn record(name: &str, tags: &[&str]) -> IconData {
    IconData {
        name: name.to_string(),
        aliases: Vec::new(),
        tags: tags.iter().map(|t| t.to_string()).collect(),
        path: Some(format!("/usr/share/icons/Adwaita/{}.svg", name)),
        symlink_path: None,
        symbolic: false,
        symlink: false,
        alias_target: None,
    }
}

fn broken_link(name: &str, tags: &[&str]) -> IconData {
    IconData {
        name: name.to_string(),
        aliases: Vec::new(),
        tags: tags.iter().map(|t| t.to_string()).collect(),
        path: Some(format!("/usr/share/icons/Adwaita/{}.svg", name)),
        symlink_path: Some("/nowhere/else.png".to_string()),
        symbolic: false,
        symlink: true,
        alias_target: None,
    }
}

#[test]
fn filter_mode_cycles() {
    assert_eq!(cycle_filter_mode(FilterMode::Is), FilterMode::Not);
    assert_eq!(cycle_filter_mode(FilterMode::Not), FilterMode::Either);
    assert_eq!(cycle_filter_mode(FilterMode::Either), FilterMode::Is);
    assert_eq!(filter_mode_check_state(FilterMode::Is), (true, false));
    assert_eq!(filter_mode_check_state(FilterMode::Not), (false, false));
    assert_eq!(filter_mode_check_state(FilterMode::Either), (false, true));
}

#[test]
fn required_tags_are_a_subset_check() {
    let rec = record("folder", &["Adwaita", "apps"]);
    let mut q = QuerySettings::new();
    assert!(required_tags_hold(&rec, &q));
    q.included_tags = vec!["apps".to_string()];
    assert!(required_tags_hold(&rec, &q));
    q.included_tags = vec!["apps".to_string(), "Adwaita".to_string()];
    assert!(required_tags_hold(&rec, &q));
    q.included_tags = vec!["apps".to_string(), "places".to_string()];
    assert!(!required_tags_hold(&rec, &q));
}

#[test]
fn unknown_category_gates_uncategorized_records() {
    // no tag of this record starts with a known category prefix
    let rec = record("odd", &["MyTheme", "weird"]);
    let mut q = QuerySettings::new();
    assert!(category_matches(&rec, &q));
    q.included_categories = vec![
        "actions".to_string(),
        "apps".to_string(),
        "places".to_string(),
    ];
    assert!(!category_matches(&rec, &q));
    q.included_categories.push("unknown".to_string());
    assert!(category_matches(&rec, &q));
}

#[test]
fn category_prefix_match_ignores_leading_tag_and_case() {
    // the tag at position 0 is the record's own theme tag and never matches
    let rec = record("folder", &["apps"]);
    let mut q = QuerySettings::new();
    q.included_categories = vec!["apps".to_string()];
    assert!(!category_matches(&rec, &q));
    // at a later position the match is case-insensitive on the tag
    let rec = record("folder", &["Adwaita", "Apps"]);
    assert!(category_matches(&rec, &q));
}

#[test]
fn empty_search_ranks_by_name() {
    let catalog = vec![
        record("paper", &["Adwaita", "apps"]),
        record("folder", &["Adwaita", "apps"]),
        record("archive", &["Adwaita", "apps"]),
    ];
    let q = QuerySettings::new();
    let visible = run_query(&catalog, &q);
    assert_eq!(visible, vec![2, 1, 0]);
}

#[test]
fn equal_scores_tie_break_lexicographically() {
    // two names with the same fuzzy score against the search text keep
    // lexicographic order
    let catalog = vec![
        record("folder-b", &["Adwaita", "apps"]),
        record("folder-a", &["Adwaita", "apps"]),
    ];
    let mut engine = QueryEngine::new(catalog);
    engine.set_search_text("folder".to_string());
    assert_eq!(engine.visible, vec![1, 0]);
}

#[test]
fn fuzzy_search_narrows_the_catalog() {
    let catalog = vec![
        record("zebra", &["Adwaita", "apps"]),
        record("folder", &["Adwaita", "apps"]),
    ];
    let mut engine = QueryEngine::new(catalog);
    engine.set_search_text("fld".to_string());
    assert_eq!(engine.visible, vec![1]);
    assert_eq!(engine.counts(), (1, 2));
    engine.set_search_text(String::new());
    assert_eq!(engine.counts(), (2, 2));
}

#[test]
fn search_can_match_tags_too() {
    let catalog = vec![
        record("folder", &["Adwaita", "apps"]),
        record("smile", &["Adwaita", "emotes"]),
    ];
    let mut engine = QueryEngine::new(catalog);
    engine.set_search_text("emotes".to_string());
    assert_eq!(engine.counts().0, 1);
    assert_eq!(engine.visible, vec![1]);
    engine.set_include_tags_in_search(false);
    assert_eq!(engine.counts().0, 0);
}

#[test]
fn rerunning_an_unchanged_query_yields_the_same_sequence() {
    let catalog = vec![
        record("paper", &["Adwaita", "apps"]),
        record("folder", &["Adwaita", "apps"]),
        broken_link("broken-link", &["Adwaita", "apps"]),
    ];
    let mut q = QuerySettings::new();
    q.search_text = "er".to_string();
    let first = run_query(&catalog, &q);
    let second = run_query(&catalog, &q);
    assert_eq!(first, second);
}

#[test]
fn dangling_visibility_toggles_broken_symlinks() {
    let catalog = vec![
        record("folder", &["Adwaita", "apps"]),
        record("folder-symbolic", &["Adwaita", "apps"]),
        broken_link("broken-link", &["Adwaita", "apps"]),
    ];
    let mut engine = QueryEngine::new(catalog);
    // symlink mode defaults to Not; the dangling symlink is hidden
    assert_eq!(engine.counts(), (2, 3));
    assert_eq!(engine.visible, vec![0, 1]);
    // showing invalid symlinks brings the unresolved record back
    engine.set_display_invalid_symlinks(true);
    assert_eq!(engine.counts(), (3, 3));
    assert_eq!(engine.visible, vec![2, 0, 1]);
    engine.set_display_invalid_symlinks(false);
    assert_eq!(engine.counts(), (2, 3));
}

#[test]
fn symlink_filter_modes() {
    let t = record("folder", &["Adwaita", "apps"]);
    let mut r = broken_link("folder-alias", &["Adwaita", "apps"]);
    r.symlink_path = Some("folder.svg".to_string());
    let catalog = vec![t, r];
    let mut engine = QueryEngine::new(catalog);
    // resolve the alias so it is no longer dangling
    let batches =
        nett_icon_viewer::alias::compute_alias_batches(&engine.catalog);
    for batch in &batches {
        engine.apply_batch(batch);
    }
    assert_eq!(engine.catalog[0].aliases, vec!["folder-alias"]);
    assert_eq!(engine.catalog[1].alias_target, Some(0));
    // Not hides the symlink even though it resolved
    assert_eq!(engine.visible, vec![0]);
    // Is shows only the symlink
    engine.set_symlink_filter_mode(FilterMode::Is);
    assert_eq!(engine.visible, vec![1]);
    // Either shows both
    engine.set_symlink_filter_mode(FilterMode::Either);
    assert_eq!(engine.counts().0, 2);
}

#[test]
fn symbolic_filter_modes() {
    let mut a = record("folder", &["Adwaita", "apps"]);
    a.symbolic = false;
    let mut b = record("folder-symbolic", &["Adwaita", "apps"]);
    b.symbolic = true;
    let mut engine = QueryEngine::new(vec![a, b]);
    assert_eq!(engine.counts().0, 2);
    engine.set_symbolic_filter_mode(FilterMode::Is);
    assert_eq!(engine.visible, vec![1]);
    engine.set_symbolic_filter_mode(FilterMode::Not);
    assert_eq!(engine.visible, vec![0]);
}

#[test]
fn engine_selection_and_categories() {
    let catalog = vec![
        record("folder", &["Adwaita", "apps"]),
        record("smile", &["Adwaita", "emotes"]),
    ];
    let mut engine = QueryEngine::new(catalog);
    engine.set_selected(0);
    let selected = engine.get_selected_icon().unwrap();
    assert_eq!(selected.name, "folder");
    engine.set_selected(5);
    assert!(engine.selected_icon().is_none());

    // narrowing the included categories narrows the catalog
    engine.set_selected(0);
    engine.set_included_categories(vec!["emotes".to_string(), "emotes".to_string()]);
    assert_eq!(engine.settings.included_categories, vec!["emotes"]);
    assert_eq!(engine.visible, vec![1]);
    engine.add_category("apps".to_string());
    assert_eq!(engine.counts().0, 2);
    engine.remove_category("apps");
    assert_eq!(engine.visible, vec![1]);
}

#[test]
fn toggling_cycles_the_engine_modes() {
    let mut engine = QueryEngine::new(vec![record("folder", &["Adwaita", "apps"])]);
    assert_eq!(engine.settings.symlink_mode, FilterMode::Not);
    engine.symlink_toggled();
    assert_eq!(engine.settings.symlink_mode, FilterMode::Either);
    engine.symlink_toggled();
    assert_eq!(engine.settings.symlink_mode, FilterMode::Is);
    assert_eq!(engine.settings.symbolic_mode, FilterMode::Either);
    engine.symbolic_toggled();
    assert_eq!(engine.settings.symbolic_mode, FilterMode::Is);
}
