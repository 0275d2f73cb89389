use hyprlauncher::entry::DesktopEntry;
use hyprlauncher::icon::{icon_candidate, icon_name, names_icon_file, replaces_indexed};
use hyprlauncher::paths::{application_dirs, cache_dir, cached_icon_path, icon_roots, split_colon_parts, state_file_path};

fn some(s: &str) -> Option<String> {
    Some(s.to_owned())
}

#[test]
fn search_paths_split_at_colons() {
    assert_eq!(split_colon_parts("a::b:"), vec!["a", "", "b", ""]);
    assert_eq!(split_colon_parts(""), vec![""]);
    assert_eq!(split_colon_parts("/usr/share"), vec!["/usr/share"]);
}

#[test]
fn application_directories_follow_xdg() {
    assert_eq!(
        application_dirs(some("/d"), some("/h"), some("/x:/y/")),
        vec!["/d/applications", "/x/applications", "/y/applications"]
    );
    assert_eq!(
        application_dirs(None, some("/h"), None),
        vec!["/h/.local/share/applications", "/usr/local/share/applications", "/usr/share/applications"]
    );
    assert_eq!(application_dirs(None, None, some("")), vec!["applications"]);
}

#[test]
fn icon_roots_follow_xdg() {
    assert_eq!(
        icon_roots(None, some("/h"), some("/x")),
        vec!["/h/.local/share/icons", "/h/.icons", "/x/icons", "/x/pixmaps"]
    );
    assert_eq!(
        icon_roots(some("/d"), None, None),
        vec!["/d/icons", "/usr/local/share/icons", "/usr/local/share/pixmaps", "/usr/share/icons", "/usr/share/pixmaps"]
    );
}

#[test]
fn cache_and_state_files_follow_xdg() {
    assert_eq!(cache_dir(some("/c"), some("/h")), "/c");
    assert_eq!(cache_dir(None, some("/h")), "/h/.cache");
    assert_eq!(cache_dir(None, None), "./.cache");
    assert_eq!(cached_icon_path(None, some("/h"), "org.gnome.Files"), "/h/.cache/hyprlauncher/icons/org.gnome.Files.png");
    assert_eq!(cached_icon_path(some("/c/"), None, "a b"), "/c/hyprlauncher/icons/a_b.png");
    assert_eq!(state_file_path(some("/s"), some("/h")), some("/s/hyprlauncher/usage"));
    assert_eq!(state_file_path(None, some("/h")), some("/h/.local/state/hyprlauncher/usage"));
    assert_eq!(state_file_path(None, None), None);
}

#[test]
fn icon_files_become_index_candidates() {
    assert_eq!(
        icon_candidate("/usr/share/icons/hicolor/48x48/apps/firefox.png"),
        Some(("firefox".to_owned(), 2048))
    );
    assert_eq!(icon_candidate("/p/org.gnome.Files.svg"), Some(("org.gnome.Files".to_owned(), 3000)));
    assert_eq!(icon_candidate("/p/.hidden.png"), Some((".hidden".to_owned(), 0)));
    assert_eq!(icon_candidate("/p/readme.txt"), None);
    assert!(replaces_indexed(None, -5));
    assert!(replaces_indexed(Some(10), 11));
    assert!(!replaces_indexed(Some(10), 10));
    assert!(!replaces_indexed(Some(10), 3));
}

#[test]
fn icon_names_and_direct_files() {
    let mut e = DesktopEntry {
        id: "x.desktop".to_owned(),
        name: "X".to_owned(),
        generic_name: None,
        comment: None,
        exec_command: "x".to_owned(),
        icon: Some("  firefox ".to_owned()),
        source: String::new(),
    };
    assert_eq!(icon_name(&e), some("firefox"));
    e.icon = Some("   ".to_owned());
    assert_eq!(icon_name(&e), None);
    e.icon = None;
    assert_eq!(icon_name(&e), None);
    assert!(names_icon_file("/opt/app/icon.png", true));
    assert!(!names_icon_file("/opt/app/icon.png", false));
    assert!(!names_icon_file("icon.png", true));
    assert!(!names_icon_file("/opt/app/icon.ico", true));
}
