use hyprlauncher::entry::DesktopEntry;
use hyprlauncher::launcher::Launcher;
use hyprlauncher::model::{update, Cmd, Model, Msg};
use hyprlauncher::usage::UsageStats;

fn entry(id: &str, name: &str) -> DesktopEntry {
    DesktopEntry {
        id: id.to_owned(),
        name: name.to_owned(),
        generic_name: None,
        comment: None,
        exec_command: format!("{name} %u"),
        icon: None,
        source: String::new(),
    }
}

fn model() -> Model {
    let launcher = Launcher::new(vec![entry("a.desktop", "Alpha"), entry("b.desktop", "Beta")], 10, UsageStats::default());
    Model::new(launcher, 760, 420)
}

fn launched(cmds: &[Cmd]) -> Option<String> {
    match cmds {
        [Cmd::Launch(e), Cmd::Exit] => Some(e.id.clone()),
        _ => None,
    }
}

#[test]
fn configuring_and_typing_redraw() {
    let mut m = model();
    assert!(m.search_focused);
    assert!(!m.configured);
    assert!(matches!(update(&mut m, Msg::Configured { width: 1920, height: 1080 }).as_slice(), [Cmd::Redraw]));
    assert!(m.configured);
    assert!(update(&mut m, Msg::Configured { width: 1920, height: 1080 }).is_empty());
    assert!(matches!(update(&mut m, Msg::Type('b')).as_slice(), [Cmd::Redraw]));
    assert!(update(&mut m, Msg::Type('\n')).is_empty());
    assert_eq!(m.launcher.query(), "b");
    assert!(matches!(update(&mut m, Msg::Backspace).as_slice(), [Cmd::Redraw]));
    assert!(update(&mut m, Msg::Backspace).is_empty());
}

#[test]
fn launching_starts_the_selected_result_and_exits() {
    let mut m = model();
    update(&mut m, Msg::Configured { width: 1920, height: 1080 });
    assert!(matches!(update(&mut m, Msg::SelectNext).as_slice(), [Cmd::Redraw]));
    assert_eq!(launched(&update(&mut m, Msg::LaunchSelected)), Some("b.desktop".to_owned()));
    update(&mut m, Msg::Type('z'));
    assert!(update(&mut m, Msg::LaunchSelected).is_empty());
    assert!(matches!(update(&mut m, Msg::Quit).as_slice(), [Cmd::Exit]));
}

#[test]
fn pressing_a_row_launches_it_and_letters_do_nothing() {
    let mut m = model();
    update(&mut m, Msg::Configured { width: 1920, height: 1080 });
    // Rows: H:A (y 396), Alpha (y 448), H:B (y 500), Beta (y 552).
    assert_eq!(launched(&update(&mut m, Msg::PointerPressedAt { x: 950, y: 560 })), Some("b.desktop".to_owned()));
    assert_eq!(m.launcher.selected(), 1);
    assert!(!m.search_focused);
    let mut m = model();
    update(&mut m, Msg::Configured { width: 1920, height: 1080 });
    assert!(matches!(update(&mut m, Msg::PointerPressedAt { x: 950, y: 400 }).as_slice(), [Cmd::Redraw]));
    assert!(!m.search_focused);
    assert!(update(&mut m, Msg::PointerPressedAt { x: 10, y: 10 }).is_empty());
    // Back on the search field: focus returns.
    assert!(matches!(update(&mut m, Msg::PointerPressedAt { x: 950, y: 350 }).as_slice(), [Cmd::Redraw]));
    assert!(m.search_focused);
}

#[test]
fn the_clear_button_clears_the_query() {
    let mut m = model();
    update(&mut m, Msg::Configured { width: 1920, height: 1080 });
    update(&mut m, Msg::Type('a'));
    // The button sits at (1290, 358), 20 pixels square, with a 4 pixel margin.
    assert!(matches!(update(&mut m, Msg::PointerPressedAt { x: 1287, y: 356 }).as_slice(), [Cmd::Redraw]));
    assert_eq!(m.launcher.query(), "");
}

#[test]
fn hovering_marks_the_result_under_the_pointer() {
    let mut m = model();
    update(&mut m, Msg::Configured { width: 1920, height: 1080 });
    assert!(matches!(update(&mut m, Msg::HoverAt { x: 950, y: 450 }).as_slice(), [Cmd::Redraw]));
    assert_eq!(m.launcher.hovered(), Some(0));
    assert!(update(&mut m, Msg::HoverAt { x: 951, y: 451 }).is_empty());
    assert!(matches!(update(&mut m, Msg::ClearHover).as_slice(), [Cmd::Redraw]));
    assert_eq!(m.launcher.hovered(), None);
}

#[test]
fn scale_caret_and_errors() {
    let mut m = model();
    assert!(matches!(update(&mut m, Msg::ScaleChanged(2)).as_slice(), [Cmd::SetBufferScale(2)]));
    assert!(update(&mut m, Msg::ScaleChanged(2)).is_empty());
    assert!(update(&mut m, Msg::ScaleChanged(0)).is_empty());
    update(&mut m, Msg::Configured { width: 800, height: 600 });
    assert!(matches!(update(&mut m, Msg::ScaleChanged(1)).as_slice(), [Cmd::SetBufferScale(1), Cmd::Redraw]));
    assert!(m.caret_visible);
    assert!(matches!(update(&mut m, Msg::CaretBlink).as_slice(), [Cmd::Redraw]));
    assert!(!m.caret_visible);
    assert!(matches!(update(&mut m, Msg::LaunchFailed("boom".to_owned())).as_slice(), [Cmd::Redraw]));
    assert_eq!(m.error.as_deref(), Some("boom"));
}

#[test]
fn moving_down_a_long_list_keeps_the_selection_in_view() {
    let apps: Vec<DesktopEntry> = (0..30).map(|i| entry(&format!("{i}.desktop"), &format!("App {i:02}"))).collect();
    let launcher = Launcher::new(apps, 100, UsageStats::default());
    let mut m = Model::new(launcher, 760, 420);
    update(&mut m, Msg::Configured { width: 1920, height: 1080 });
    let rows = m.layout().visible_rows();
    for step in 0..45 {
        update(&mut m, Msg::SelectNext);
        let selected = m.launcher.selected();
        assert_eq!(selected, (step + 1) % 30);
        let window = m.launcher.window_items(rows);
        assert!(
            window.iter().any(|item| matches!(item, hyprlauncher::launcher::ListItem::Entry { index, .. } if *index == selected)),
            "step {step}"
        );
    }
}
