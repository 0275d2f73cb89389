use hyprlauncher::launch::strip_desktop_field_codes;
use hyprlauncher::parser::parse_desktop_entry;

#[test]
fn removes_desktop_field_codes() {
    assert_eq!(strip_desktop_field_codes("firefox %u"), "firefox");
    assert_eq!(strip_desktop_field_codes("app --name %c %%"), "app --name %");
}

#[test]
fn parses_visible_application() {
    let content = r#"
[Desktop Entry]
Type=Application
Name=Ark
GenericName=Archive Manager
Comment=Work with archives
Exec=ark %U
Icon=ark
"#;

    let entry = parse_desktop_entry("ark.desktop", content).unwrap();

    assert_eq!(entry.name, "Ark");
    assert_eq!(entry.exec_command, "ark %U");
    assert_eq!(entry.icon.as_deref(), Some("ark"));
}

#[test]
fn skips_hidden_entries() {
    let content = r#"
[Desktop Entry]
Type=Application
Name=Hidden App
Exec=hidden
NoDisplay=true
"#;

    assert!(parse_desktop_entry("hidden.desktop", content).is_none());
}
