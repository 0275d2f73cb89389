use hyprlauncher::entry::DesktopEntry;
use hyprlauncher::launcher::{group_letter, name_match_range, Launcher, ListItem};
use hyprlauncher::usage::UsageStats;

fn entry(id: &str, name: &str) -> DesktopEntry {
    DesktopEntry {
        id: id.to_owned(),
        name: name.to_owned(),
        generic_name: None,
        comment: None,
        exec_command: String::new(),
        icon: None,
        source: String::new(),
    }
}

fn names(launcher: &Launcher) -> Vec<String> {
    launcher.visible_entries().into_iter().map(|e| e.name.clone()).collect()
}

fn type_query(launcher: &mut Launcher, query: &str) {
    for ch in query.chars() {
        launcher.push_char(ch);
    }
}

#[test]
fn rank_tiers_follow_match_quality() {
    let mut e = entry("a.desktop", "Firefox");
    e.generic_name = Some("Web Browser".to_owned());
    e.comment = Some("Browse the World Wide Web".to_owned());
    assert_eq!(e.rank(""), Some(100));
    assert_eq!(e.rank("   "), Some(100));
    assert_eq!(e.rank("firefox"), Some(0));
    assert_eq!(e.rank("  FIRE "), Some(10));
    assert_eq!(e.rank("fox"), Some(20));
    assert_eq!(e.rank("browser"), Some(40));
    assert_eq!(e.rank("world"), Some(60));
    assert_eq!(e.rank("chromium"), None);
}

#[test]
fn usage_never_lifts_a_weaker_match_over_a_stronger_one() {
    let mut usage = UsageStats::default();
    for _ in 0..50 {
        usage.bump("campfire.desktop");
    }
    let mut launcher = Launcher::new(
        vec![entry("campfire.desktop", "Campfire"), entry("firefox.desktop", "Firefox")],
        10,
        usage,
    );
    type_query(&mut launcher, "fire");
    // Firefox starts with the query (10); Campfire only contains it (20), and
    // its boost is capped at 9.
    assert_eq!(names(&launcher), vec!["Firefox", "Campfire"]);
}

#[test]
fn usage_reorders_results_within_a_tier() {
    let mut usage = UsageStats::default();
    for _ in 0..3 {
        usage.bump("firewall.desktop");
    }
    usage.bump("firefox.desktop");
    let mut launcher = Launcher::new(
        vec![entry("firefox.desktop", "Firefox"), entry("firewall.desktop", "Firewall")],
        10,
        usage,
    );
    type_query(&mut launcher, "fire");
    assert_eq!(names(&launcher), vec!["Firewall", "Firefox"]);
}

#[test]
fn equal_keys_keep_alphabetical_then_input_order() {
    let mut launcher = Launcher::new(
        vec![entry("b.desktop", "beta"), entry("a.desktop", "Alpha"), entry("c.desktop", "alpha")],
        10,
        UsageStats::default(),
    );
    assert_eq!(names(&launcher), vec!["Alpha", "alpha", "beta"]);
    type_query(&mut launcher, "a");
    // "alpha" starts with "a" (10); "beta" contains it (20).
    assert_eq!(names(&launcher), vec!["Alpha", "alpha", "beta"]);
}

#[test]
fn browsing_lists_every_application_and_searching_is_capped() {
    let apps = vec![entry("c.desktop", "Gamma"), entry("a.desktop", "Alpha"), entry("b.desktop", "Beta")];
    let mut launcher = Launcher::new(apps.clone(), 2, UsageStats::default());
    // With no search the complete list shows, whatever the limit.
    assert_eq!(launcher.result_count(), 3);
    assert_eq!(names(&launcher), vec!["Alpha", "Beta", "Gamma"]);
    let entries = launcher.list_items().into_iter().filter(|item| matches!(item, ListItem::Entry { .. })).count();
    assert_eq!(entries, 3);
    // A search shows at most the limit.
    type_query(&mut launcher, "a");
    assert_eq!(launcher.result_count(), 2);
    // A limit of zero still shows one search result, and every application when browsing.
    let mut launcher = Launcher::new(apps, 0, UsageStats::default());
    assert_eq!(launcher.result_count(), 3);
    type_query(&mut launcher, "a");
    assert_eq!(launcher.result_count(), 1);
    // A query of blanks is no search.
    let mut launcher = Launcher::new(vec![entry("a.desktop", "Alpha"), entry("b.desktop", "Beta")], 1, UsageStats::default());
    type_query(&mut launcher, "  ");
    assert_eq!(launcher.result_count(), 2);
}

#[test]
fn selection_wraps_and_next_then_previous_restores() {
    let mut launcher = Launcher::new(
        vec![entry("a.desktop", "Alpha"), entry("b.desktop", "Beta"), entry("c.desktop", "Gamma")],
        10,
        UsageStats::default(),
    );
    assert_eq!(launcher.selected(), 0);
    assert!(launcher.select_prev());
    assert_eq!(launcher.selected(), 2);
    assert!(launcher.select_next());
    assert_eq!(launcher.selected(), 0);
    assert!(launcher.select_next());
    assert!(launcher.select_prev());
    assert_eq!(launcher.selected(), 0);
    assert!(launcher.select_index(1));
    assert!(!launcher.select_index(7));
    assert_eq!(launcher.selected(), 1);
    assert_eq!(launcher.selected_entry().map(|e| e.id), Some("b.desktop".to_owned()));
}

#[test]
fn selection_moves_nothing_without_results() {
    let mut launcher = Launcher::new(vec![entry("a.desktop", "Alpha")], 10, UsageStats::default());
    type_query(&mut launcher, "zzz");
    assert_eq!(launcher.result_count(), 0);
    assert!(!launcher.select_next());
    assert!(!launcher.select_prev());
    assert!(launcher.selected_entry().is_none());
}

#[test]
fn typing_then_deleting_restores_the_query() {
    let mut launcher = Launcher::new(vec![entry("a.desktop", "Alpha")], 10, UsageStats::default());
    assert!(launcher.push_char('a'));
    assert!(launcher.push_char('l'));
    assert!(!launcher.push_char('\u{7}'));
    assert_eq!(launcher.query(), "al");
    assert!(launcher.push_char('x'));
    assert!(launcher.backspace());
    assert_eq!(launcher.query(), "al");
    assert!(launcher.clear_query());
    assert_eq!(launcher.query(), "");
    assert!(!launcher.backspace());
    assert!(!launcher.clear_query());
}

#[test]
fn scrolling_brings_the_selection_into_the_window() {
    let apps: Vec<DesktopEntry> = ["Alpha", "Amber", "Beta", "Bravo", "Gamma", "Golf"]
        .iter()
        .enumerate()
        .map(|(i, n)| entry(&format!("{i}.desktop"), n))
        .collect();
    let mut launcher = Launcher::new(apps, 10, UsageStats::default());
    // Rows: H:A Alpha Amber H:B Beta Bravo H:G Gamma Golf.
    assert!(launcher.select_index(4));
    assert!(launcher.ensure_selected_visible(3));
    let window = launcher.window_items(3);
    assert!(window.iter().any(|item| matches!(item, ListItem::Entry { index: 4, .. })));
    // Back to the top: the letter above the first result is shown with it.
    assert!(launcher.select_index(0));
    assert!(launcher.ensure_selected_visible(3));
    assert!(matches!(launcher.window_items(3)[0], ListItem::Header('A')));
    assert!(!launcher.ensure_selected_visible(3));
}

#[test]
fn hovering_past_the_results_clears_the_hover() {
    let mut launcher = Launcher::new(vec![entry("a.desktop", "Alpha")], 10, UsageStats::default());
    assert!(launcher.hover_index(Some(0)));
    assert_eq!(launcher.hovered(), Some(0));
    assert!(launcher.hover_index(Some(5)));
    assert_eq!(launcher.hovered(), None);
    assert!(!launcher.hover_index(None));
}

#[test]
fn recording_a_launch_counts_it() {
    let mut launcher = Launcher::new(vec![entry("a.desktop", "Alpha")], 10, UsageStats::default());
    assert_eq!(launcher.pinned_count(5), 0);
    launcher.record_launch("a.desktop");
    launcher.record_launch("a.desktop");
    assert_eq!(launcher.usage().count("a.desktop"), 2);
    assert_eq!(launcher.pinned_count(5), 1);
}

#[test]
fn group_letters_use_the_first_alphanumeric_character() {
    assert_eq!(group_letter("alacritty"), 'A');
    assert_eq!(group_letter("  (beta)"), 'B');
    assert_eq!(group_letter("1Password"), '#');
    assert_eq!(group_letter("..."), '#');
    assert_eq!(group_letter("émoji"), 'É');
}

#[test]
fn match_range_finds_the_query_ignoring_case() {
    assert_eq!(name_match_range("Firefox", "fox"), Some((4, 7)));
    assert_eq!(name_match_range("Firefox", "  FIRE "), Some((0, 4)));
    assert_eq!(name_match_range("Firefox", "   "), None);
    assert_eq!(name_match_range("Firefox", "chrome"), None);
}

#[test]
fn a_one_row_window_scrolled_up_shows_the_letter_above() {
    let apps: Vec<DesktopEntry> = ["Alpha", "Beta", "Gamma"]
        .iter()
        .enumerate()
        .map(|(i, n)| entry(&format!("{i}.desktop"), n))
        .collect();
    let mut launcher = Launcher::new(apps, 10, UsageStats::default());
    // Rows: H:A Alpha H:B Beta H:G Gamma.
    assert!(launcher.select_index(2));
    assert!(launcher.ensure_selected_visible(1));
    assert!(matches!(launcher.window_items(1)[0], ListItem::Entry { index: 2, .. }));
    assert!(launcher.select_index(1));
    assert!(launcher.ensure_selected_visible(1));
    assert!(matches!(launcher.window_items(1)[0], ListItem::Header('B')));
}

#[test]
fn equally_launched_pins_go_by_name_then_entry_order() {
    let mut usage = UsageStats::default();
    for id in ["term-b.desktop", "zed.desktop", "term-a.desktop", "beta.desktop", "alpha.desktop"] {
        usage.bump(id);
        usage.bump(id);
    }
    usage.bump("zed.desktop");
    let launcher = Launcher::new(
        vec![
            entry("beta.desktop", "beta"),
            entry("term-b.desktop", "Term"),
            entry("zed.desktop", "Zed"),
            entry("term-a.desktop", "term"),
            entry("alpha.desktop", "Alpha"),
            entry("idle.desktop", "Idle"),
        ],
        10,
        usage,
    );
    let pinned: Vec<&str> = launcher.pinned_entries(10).into_iter().map(|e| e.id.as_str()).collect();
    assert_eq!(
        pinned,
        vec!["zed.desktop", "alpha.desktop", "beta.desktop", "term-b.desktop", "term-a.desktop"]
    );
    let pinned: Vec<&str> = launcher.pinned_entries(2).into_iter().map(|e| e.id.as_str()).collect();
    assert_eq!(pinned, vec!["zed.desktop", "alpha.desktop"]);
}

#[test]
fn browsing_ignores_launch_counts() {
    let mut usage = UsageStats::default();
    for _ in 0..9 {
        usage.bump("c.desktop");
    }
    let apps = vec![entry("c.desktop", "Gamma"), entry("a.desktop", "alpha"), entry("b.desktop", "Beta")];
    let launcher = Launcher::new(apps, 10, usage);
    assert_eq!(names(&launcher), vec!["alpha", "Beta", "Gamma"]);
}
