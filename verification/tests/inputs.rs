use hyprlauncher::entry::DesktopEntry;
use hyprlauncher::input::{
    key_event_to_msg, wheel_direction, wheel_messages, wheel_steps, KEY_BACKSPACE, KEY_DOWN, KEY_ESCAPE,
    KEY_RETURN, KEY_UP,
};
use hyprlauncher::labels::highlight_segments;
use hyprlauncher::launcher::Launcher;
use hyprlauncher::model::{buffer_size, cursor_at, update, CursorKind, Model, Msg};
use hyprlauncher::usage::UsageStats;

fn entry(id: &str, name: &str) -> DesktopEntry {
    DesktopEntry {
        id: id.to_owned(),
        name: name.to_owned(),
        generic_name: None,
        comment: None,
        exec_command: name.to_owned(),
        icon: None,
        source: String::new(),
    }
}

#[test]
fn keys_map_to_events() {
    assert!(matches!(key_event_to_msg(KEY_ESCAPE, Some("\u{1b}")), Some(Msg::Quit)));
    assert!(matches!(key_event_to_msg(KEY_RETURN, None), Some(Msg::LaunchSelected)));
    assert!(matches!(key_event_to_msg(KEY_BACKSPACE, Some("\u{8}")), Some(Msg::Backspace)));
    assert!(matches!(key_event_to_msg(KEY_UP, None), Some(Msg::SelectPrev)));
    assert!(matches!(key_event_to_msg(KEY_DOWN, None), Some(Msg::SelectNext)));
    assert!(matches!(key_event_to_msg(0x61, Some("a")), Some(Msg::Type('a'))));
    assert!(matches!(key_event_to_msg(0xe9, Some("é")), Some(Msg::Type('é'))));
    assert!(key_event_to_msg(0xff09, Some("\t")).is_none());
    assert!(key_event_to_msg(0x61, Some("ab")).is_none());
    assert!(key_event_to_msg(0x61, Some("")).is_none());
    assert!(key_event_to_msg(0xffe1, None).is_none());
}

#[test]
fn wheel_events_move_the_selection() {
    assert_eq!(wheel_direction(240, 0, 0), Some(1));
    assert_eq!(wheel_direction(-60, 5, 1), Some(-1));
    assert_eq!(wheel_direction(0, -2, 1), Some(-1));
    assert_eq!(wheel_direction(0, 0, 1), Some(1));
    assert_eq!(wheel_direction(0, 0, -1), Some(-1));
    assert_eq!(wheel_direction(0, 0, 0), None);
    assert_eq!(wheel_steps(240, 0, 0), 2);
    assert_eq!(wheel_steps(-60, 0, 0), 1);
    assert_eq!(wheel_steps(120 * 50, 0, 0), 6);
    assert_eq!(wheel_steps(0, -3, 0), 3);
    assert_eq!(wheel_steps(0, i32::MIN, 0), 6);
    assert_eq!(wheel_steps(0, 0, 0), 1);
    assert_eq!(wheel_steps(0, 0, 4), 4);
    assert_eq!(wheel_steps(0, 0, usize::MAX), 6);
    let msgs = wheel_messages(-360, 0, 0, 0);
    assert_eq!(msgs.len(), 3);
    assert!(msgs.iter().all(|m| matches!(m, Msg::SelectPrev)));
    assert!(wheel_messages(0, 0, 0, 9).is_empty());
    assert_eq!(wheel_messages(0, 0, 1, 2).len(), 2);
}

#[test]
fn the_cursor_shows_what_a_press_would_do() {
    let launcher = Launcher::new(vec![entry("a.desktop", "Alpha"), entry("b.desktop", "Beta")], 10, UsageStats::default());
    let mut m = Model::new(launcher, 760, 420);
    update(&mut m, Msg::Configured { width: 1920, height: 1080 });
    assert_eq!(cursor_at(&m, 950, 360), CursorKind::Text);
    assert_eq!(cursor_at(&m, 1295, 360), CursorKind::Text);
    assert_eq!(cursor_at(&m, 950, 400), CursorKind::Default);
    assert_eq!(cursor_at(&m, 950, 450), CursorKind::Pointer);
    assert_eq!(cursor_at(&m, 10, 10), CursorKind::Default);
    update(&mut m, Msg::Type('a'));
    assert_eq!(cursor_at(&m, 1295, 360), CursorKind::Pointer);
}

#[test]
fn titles_are_cut_for_highlighting() {
    let (a, b, c) = highlight_segments("Firefox", 4, 7);
    assert_eq!((a.as_str(), b.as_str(), c.as_str()), ("Fire", "fox", ""));
    let (a, b, c) = highlight_segments("Zeta", 9, 12);
    assert_eq!((a.as_str(), b.as_str(), c.as_str()), ("Zeta", "", ""));
    let (a, b, c) = highlight_segments("ñandú", 3, 1);
    assert_eq!((a.as_str(), b.as_str(), c.as_str()), ("ñan", "", "dú"));
}

#[test]
fn the_hint_counts_results_below_the_window() {
    let apps: Vec<DesktopEntry> = (0..8).map(|i| entry(&format!("{i}.desktop"), &format!("App {i}"))).collect();
    let mut launcher = Launcher::new(apps, 10, UsageStats::default());
    // Browsing: one letter row, then eight results; four rows show three results.
    assert_eq!(launcher.results_below_window(4), 5);
    assert_eq!(launcher.results_below_window(20), 0);
    launcher.push_char('a');
    assert_eq!(launcher.results_below_window(4), 4);
    assert_eq!(launcher.results_below_window(0), 8);
}

#[test]
fn buffers_are_scaled_logical_sizes() {
    assert_eq!(buffer_size(800, 600, 2), (1600, 1200, 6400));
    assert_eq!(buffer_size(0, 0, 0), (1, 1, 4));
    assert_eq!(buffer_size(10, 20, -3), (10, 20, 40));
}
