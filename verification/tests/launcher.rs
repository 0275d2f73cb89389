use hyprlauncher::entry::DesktopEntry;
use hyprlauncher::launcher::{Launcher, ListItem};
use hyprlauncher::usage::UsageStats;

fn entry(id: &str, name: &str) -> DesktopEntry {
    DesktopEntry {
        id: id.to_owned(),
        name: name.to_owned(),
        generic_name: None,
        comment: None,
        exec_command: String::new(),
        icon: None,
        source: String::new(),
    }
}

#[test]
fn pinned_entries_ranks_by_usage_and_truncates() {
    let mut usage = UsageStats::default();

    for _ in 0..5 {
        usage.bump("zed.desktop");
    }
    for _ in 0..3 {
        usage.bump("spotify.desktop");
    }
    usage.bump("discord.desktop");
    usage.bump("dolphin.desktop");
    usage.bump("dolphin.desktop");

    let launcher = Launcher::new(
        vec![
            entry("chromium.desktop", "Chromium"),
            entry("discord.desktop", "Discord"),
            entry("dolphin.desktop", "Dolphin"),
            entry("spotify.desktop", "Spotify"),
            entry("zed.desktop", "Zed"),
        ],
        10,
        usage,
    );

    let pinned: Vec<&str> = launcher.pinned_entries(3).into_iter().map(|entry| entry.id.as_str()).collect();

    assert_eq!(pinned, vec!["zed.desktop", "spotify.desktop", "dolphin.desktop"]);
    assert_eq!(launcher.pinned_count(3), 3);
    assert_eq!(launcher.pinned_entry(0, 3).map(|entry| entry.id), Some("zed.desktop".to_owned()));
}

#[test]
fn list_items_groups_by_initial_when_browsing() {
    let mut usage = UsageStats::default();

    // Usage must not break the alphabetical order while browsing.
    for _ in 0..5 {
        usage.bump("blender.desktop");
    }

    let launcher = Launcher::new(
        vec![
            entry("alacritty.desktop", "Alacritty"),
            entry("blender.desktop", "Blender"),
            entry("onepassword.desktop", "1Password"),
            entry("amberol.desktop", "Amberol"),
        ],
        10,
        usage,
    );

    let repr: Vec<String> = launcher
        .list_items()
        .iter()
        .map(|item| match item {
            ListItem::Header(letter) => format!("H:{letter}"),
            ListItem::Entry { entry, .. } => entry.name.clone(),
        })
        .collect();

    assert_eq!(repr, vec!["H:#", "1Password", "H:A", "Alacritty", "Amberol", "H:B", "Blender"]);
}

#[test]
fn list_items_stays_flat_while_searching() {
    let mut launcher = Launcher::new(
        vec![entry("alacritty.desktop", "Alacritty"), entry("blender.desktop", "Blender")],
        10,
        UsageStats::default(),
    );

    launcher.push_char('b');

    let items = launcher.list_items();

    assert_eq!(items.len(), 1);
    assert!(items.iter().all(|item| matches!(item, ListItem::Entry { .. })));
}

#[test]
fn entry_index_at_row_skips_headers() {
    let launcher = Launcher::new(
        vec![entry("alacritty.desktop", "Alacritty"), entry("blender.desktop", "Blender")],
        10,
        UsageStats::default(),
    );

    // Window: H:A, Alacritty, H:B, Blender.
    assert_eq!(launcher.entry_index_at_row(0, 4), None);
    assert_eq!(launcher.entry_index_at_row(1, 4), Some(0));
    assert_eq!(launcher.entry_index_at_row(2, 4), None);
    assert_eq!(launcher.entry_index_at_row(3, 4), Some(1));
}

#[test]
fn pinned_entries_hides_unused_apps() {
    let launcher = Launcher::new(vec![entry("chromium.desktop", "Chromium")], 10, UsageStats::default());

    assert!(launcher.pinned_entries(3).is_empty());
    assert_eq!(launcher.pinned_count(3), 0);
    assert!(launcher.pinned_entry(0, 3).is_none());
}
