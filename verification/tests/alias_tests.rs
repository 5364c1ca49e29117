use nett_icon_viewer::alias::apply_alias_batch;
use nett_icon_viewer::alias::compute_alias_batches;
use nett_icon_viewer::alias::compute_target_aliases;
use nett_icon_viewer::alias::join_path_exec;
use nett_icon_viewer::alias::parent_dir_of;
use nett_icon_viewer::alias::resolves_to_exec;
use nett_icon_viewer::icon::IconData;
use nett_icon_viewer::icon::ThemeLookup;
use nett_icon_viewer::icon::data_changes;

fn plain(name: &str, path: &str) -> IconData {
    IconData {
        name: name.to_string(),
        aliases: Vec::new(),
        tags: Vec::new(),
        path: Some(path.to_string()),
        symlink_path: None,
        symbolic: false,
        symlink: false,
        alias_target: None,
    }
}

fn link(name: &str, path: &str, target: &str) -> IconData {
    IconData {
        name: name.to_string(),
        aliases: Vec::new(),
        tags: Vec::new(),
        path: Some(path.to_string()),
        symlink_path: Some(target.to_string()),
        symbolic: false,
        symlink: true,
        alias_target: None,
    }
}

#[test]
fn path_helpers() {
    assert_eq!(parent_dir_of("/icons/A/foo.png"), "/icons/A");
    assert_eq!(parent_dir_of("/foo.png"), "/");
    assert_eq!(parent_dir_of("foo.png"), "");
    assert_eq!(join_path_exec("/icons/A", "foo.png"), "/icons/A/foo.png");
    assert_eq!(join_path_exec("/icons/A", "/abs/foo.png"), "/abs/foo.png");
    assert_eq!(join_path_exec("/", "foo.png"), "/foo.png");
    assert_eq!(join_path_exec("", "foo.png"), "foo.png");
}

#[test]
fn relative_target_in_same_directory_resolves() {
    // a link target written relative to the target record's directory
    let t = plain("foo", "/icons/A/foo.png");
    let r = link("foo-alias", "/icons/A/foo-alias.png", "foo.png");
    let records = vec![t, r];
    let aliases = compute_target_aliases(&records, 0);
    assert_eq!(aliases.len(), 1);
    assert_eq!(aliases[0].index, 1);
    assert_eq!(aliases[0].name, "foo-alias");

    let mut records = records;
    let batches = compute_alias_batches(&records);
    assert_eq!(batches.len(), 1);
    assert_eq!(batches[0].target_index, 0);
    apply_alias_batch(&mut records, &batches[0]);
    assert_eq!(records[0].aliases, vec!["foo-alias"]);
    assert_eq!(records[1].alias_target, Some(0));
}

#[test]
fn absolute_target_resolves() {
    let t = plain("foo", "/icons/A/foo.png");
    let r = link("foo-alias", "/icons/B/foo-alias.png", "/icons/A/foo.png");
    let mut records = vec![r, t];
    let batches = compute_alias_batches(&records);
    assert_eq!(batches.len(), 1);
    assert_eq!(batches[0].target_index, 1);
    assert_eq!(batches[0].aliases.len(), 1);
    assert_eq!(batches[0].aliases[0].index, 0);
    apply_alias_batch(&mut records, &batches[0]);
    assert_eq!(records[1].aliases, vec!["foo-alias"]);
    assert_eq!(records[0].alias_target, Some(1));
}

#[test]
fn resolves_to_both_forms() {
    assert!(resolves_to_exec("/icons/A/foo.png", "/icons/A/foo.png"));
    assert!(resolves_to_exec("foo.png", "/icons/A/foo.png"));
    assert!(!resolves_to_exec("bar.png", "/icons/A/foo.png"));
    assert!(!resolves_to_exec("/icons/B/foo.png", "/icons/A/foo.png"));
}

#[test]
fn dangling_symlink_stays_unresolved() {
    let t = plain("foo", "/icons/A/foo.png");
    let r = link("broken", "/icons/A/broken.png", "/nowhere/else.png");
    let mut records = vec![t, r];
    let batches = compute_alias_batches(&records);
    assert_eq!(batches.len(), 1);
    assert!(batches[0].aliases.is_empty());
    apply_alias_batch(&mut records, &batches[0]);
    assert!(records[0].aliases.is_empty());
    assert_eq!(records[1].alias_target, None);
}

#[test]
fn add_aliases_keeps_names_unique() {
    let mut rec = plain("foo", "/icons/A/foo.png");
    rec.aliases = vec!["a".to_string(), "b".to_string()];
    rec.add_aliases(vec!["b".to_string(), "c".to_string(), "c".to_string()]);
    assert_eq!(rec.aliases, vec!["a", "b", "c"]);
}

#[test]
fn apply_lookup_extracts_metadata() {
    let rec = IconData::new("test".to_string());
    let lookup = ThemeLookup {
        path: Some("/usr/share/icons/Adwaita/test.svg".to_string()),
        symbolic: true,
        symlink: false,
        symlink_target: None,
    };
    let out = rec.apply_lookup(&lookup, true);
    assert_eq!(out.path.as_deref(), Some("/usr/share/icons/Adwaita/test.svg"));
    assert!(out.symbolic);
    assert!(!out.symlink);
    assert_eq!(out.tags, vec!["Adwaita"]);

    // a mere size change re-derives nothing
    let unchanged = out.apply_lookup(
        &ThemeLookup { path: None, symbolic: true, symlink: false, symlink_target: None },
        false,
    );
    assert_eq!(unchanged.tags, out.tags);
    assert_eq!(unchanged.path, out.path);

    // a symlink whose target could not be read is not a symlink
    let failed_read = rec.apply_lookup(
        &ThemeLookup {
            path: Some("/icons/x.png".to_string()),
            symbolic: false,
            symlink: true,
            symlink_target: None,
        },
        true,
    );
    assert!(!failed_read.symlink);
    assert_eq!(failed_read.symlink_path, None);
}

#[test]
fn data_changes_flags_each_property() {
    let a = plain("foo", "/icons/A/foo.png");
    let mut b = a.duplicate();
    let none = data_changes(&a, &b);
    assert!(!none.aliases && !none.tags && !none.path && !none.symbolic && !none.symlink);
    assert!(!none.symlink_path);
    b.symbolic = true;
    b.tags = vec!["Adwaita".to_string()];
    let some = data_changes(&a, &b);
    assert!(some.symbolic && some.tags);
    assert!(!some.aliases && !some.path && !some.symlink && !some.symlink_path);
}
