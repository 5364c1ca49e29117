use nett_icon_viewer::category::categorize_icon;
use nett_icon_viewer::category::get_categories_from_path;
use nett_icon_viewer::category::split_up_path;
use nett_icon_viewer::icon::IconData;

fn record(name: &str, path: Option<&str>) -> IconData {
    IconData {
        name: name.to_string(),
        aliases: Vec::new(),
        tags: Vec::new(),
        path: path.map(|p| p.to_string()),
        symlink_path: None,
        symbolic: false,
        symlink: false,
        alias_target: None,
    }
}

#[test]
fn category_test_split_up_path() {
    let result = split_up_path("/usr/share/icons/Adwaita");
    assert_eq!(result, vec!["usr", "share", "icons", "Adwaita"]);
}

#[test]
fn category_test_categorize_icon() {
    let icon = record("test", Some("/usr/share/icons/Adwaita"));
    assert_eq!(categorize_icon(&icon), vec!["Adwaita"]);
}

#[test]
fn data_test_split_up_path() {
    let result = split_up_path("/usr/share/icons/Adwaita");
    assert_eq!(result, vec!["usr", "share", "icons", "Adwaita"]);
}

#[test]
fn data_test_categorize_icon() {
    let icon = record("test", Some("/usr/share/icons/Adwaita/test.svg"));
    assert_eq!(categorize_icon(&icon), vec!["Adwaita"]);
}

#[test]
fn test_get_tags_from_path() {
    for (path, expected) in [
        ("/usr/share/icons/Adwaita", vec!["Adwaita"]),
        ("/home/dev/.icons/Adwaita", vec!["Adwaita"]),
        ("/home/dev/.local/share/icons/Adwaita", vec!["Adwaita"]),
    ] {
        assert_eq!(get_categories_from_path(path), expected);
    }
}

#[test]
fn categorize_no_infrastructure_components_survive() {
    let cats = get_categories_from_path("/usr/share/icons/icons/.icons/.local");
    assert!(cats.is_empty());
    let cats = get_categories_from_path("/usr/share/icons/Adwaita/apps/foo.svg");
    for c in &cats {
        assert!(!["usr", "share", "icons", ".local", ".icons"].contains(&c.as_str()));
    }
    assert_eq!(cats, vec!["Adwaita", "apps", "foo.svg"]);
}

#[test]
fn categorize_home_only_strips_when_leading() {
    // a `home` component that is not first is an ordinary category
    assert_eq!(
        get_categories_from_path("/opt/home/dev/Adwaita"),
        vec!["opt", "home", "dev", "Adwaita"]
    );
    // a leading `home` strips the username everywhere
    assert_eq!(
        get_categories_from_path("/home/dev/themes/dev/Adwaita"),
        vec!["themes", "Adwaita"]
    );
    // a lone `home` is removed with no username to strip
    assert_eq!(get_categories_from_path("/home"), Vec::<String>::new());
}

#[test]
fn categorize_edge_paths() {
    assert_eq!(split_up_path(""), Vec::<String>::new());
    assert_eq!(split_up_path("/"), Vec::<String>::new());
    assert_eq!(split_up_path("a//b"), vec!["a", "b"]);
    assert_eq!(split_up_path("relative/path"), vec!["relative", "path"]);
    assert_eq!(
        get_categories_from_path("/etc/xdg/themes"),
        vec!["etc", "xdg", "themes"]
    );
}

#[test]
fn categorize_icon_without_path_has_no_tags() {
    let icon = record("ghost", None);
    assert_eq!(categorize_icon(&icon), Vec::<String>::new());
}

#[test]
fn categorize_icon_strips_every_component_with_own_name_prefix() {
    let icon = record(
        "folder",
        Some("/usr/share/icons/Adwaita/folder-open/folder.svg"),
    );
    assert_eq!(categorize_icon(&icon), vec!["Adwaita"]);
}
