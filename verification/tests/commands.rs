use hyprlauncher::config::{config_from_args, default_hyprcolor_json, Config};
use hyprlauncher::entry::DesktopEntry;
use hyprlauncher::launch::{command_from_words, launch_command, strip_desktop_field_codes, LaunchError};
use hyprlauncher::parser::{parse_desktop_entry, parse_desktop_values};
use hyprlauncher::scanner::{scan_desktop_entries, DesktopFile};

fn entry_with_exec(exec: &str) -> DesktopEntry {
    DesktopEntry {
        id: "x.desktop".to_owned(),
        name: "X".to_owned(),
        generic_name: None,
        comment: None,
        exec_command: exec.to_owned(),
        icon: None,
        source: String::new(),
    }
}

fn strings(words: &[&str]) -> Vec<String> {
    words.iter().map(|w| (*w).to_owned()).collect()
}

#[test]
fn field_codes_are_removed_and_spaces_collapsed() {
    assert_eq!(strip_desktop_field_codes("  env  FOO=1   app %F --x=%i "), "env FOO=1 app --x=");
    assert_eq!(strip_desktop_field_codes("100%% sure %z %"), "100% sure %z %");
    assert_eq!(strip_desktop_field_codes("%U"), "");
}

#[test]
fn launch_commands_split_like_a_shell() {
    match launch_command(&entry_with_exec("sh -c 'echo \"hi there\"' %u")) {
        Ok(cmd) => {
            assert_eq!(cmd.program, "sh");
            assert_eq!(cmd.args, strings(&["-c", "echo \"hi there\""]));
        },
        Err(e) => panic!("unexpected error {e:?}"),
    }
    assert!(matches!(launch_command(&entry_with_exec("app 'unterminated")), Err(LaunchError::Unparsable)));
    assert!(matches!(launch_command(&entry_with_exec("%f %U")), Err(LaunchError::Empty)));
}

#[test]
fn commands_come_from_the_first_word() {
    assert!(matches!(command_from_words(None), Err(LaunchError::Unparsable)));
    assert!(matches!(command_from_words(Some(Vec::new())), Err(LaunchError::Empty)));
    match command_from_words(Some(strings(&["a", "b", "c"]))) {
        Ok(cmd) => {
            assert_eq!(cmd.program, "a");
            assert_eq!(cmd.args, strings(&["b", "c"]));
        },
        Err(e) => panic!("unexpected error {e:?}"),
    }
}

#[test]
fn command_line_options_override_the_defaults() {
    let base = Config::load("/tmp/colors.json".to_owned());
    assert_eq!(base.width, 760);
    assert_eq!(base.height, 420);
    assert_eq!(base.max_results, usize::MAX);
    let c = config_from_args(
        base.clone(),
        strings(&["--max-results", "0", "--width", "100", "--height", "900", "--hyprcolor", "/p.json", "extra"]),
    );
    assert_eq!(c.max_results, 1);
    assert_eq!(c.width, 360);
    assert_eq!(c.height, 900);
    assert_eq!(c.hyprcolor_json, "/p.json");
    // A value that is not a number is skipped together with its option.
    let c = config_from_args(base.clone(), strings(&["--width", "wide", "--height", "500", "--width"]));
    assert_eq!(c.width, 760);
    assert_eq!(c.height, 500);
    let c = config_from_args(base, strings(&["--max-results", "+7", "--width", "99999999999"]));
    assert_eq!(c.max_results, 7);
    assert_eq!(c.width, 760);
}

#[test]
fn palette_path_follows_the_cache_directory() {
    assert_eq!(
        default_hyprcolor_json(Some("/c".to_owned()), Some("/h".to_owned())),
        "/c/hyprcolors/colors.json"
    );
    assert_eq!(default_hyprcolor_json(Some("/c/".to_owned()), None), "/c/hyprcolors/colors.json");
    assert_eq!(default_hyprcolor_json(None, Some("/home/u".to_owned())), "/home/u/.cache/hyprcolors/colors.json");
    assert_eq!(default_hyprcolor_json(None, None), "./.cache/hyprcolors/colors.json");
}

#[test]
fn desktop_values_come_from_the_entry_group_only() {
    let content = "Name=Outside\n[Desktop Entry]\n# comment\nName=Inside\nName[es]=Dentro\nComment=Line\\nbreak\\\\n\n  Exec = app  \n[Other]\nName=Other\n";
    let values = parse_desktop_values(content);
    assert_eq!(values.get("Name").map(|v| v.iter().collect::<String>()), Some("Inside".to_owned()));
    assert!(values.get("Name[es]").is_none());
    assert_eq!(values.get("Comment").map(|v| v.iter().collect::<String>()), Some("Line\nbreak\\\n".to_owned()));
    assert_eq!(values.get("Exec ").map(|v| v.iter().collect::<String>()), Some(" app".to_owned()));
    assert!(values.get("Exec").is_none());
}

#[test]
fn desktop_entries_need_a_visible_application() {
    let ok = "[Desktop Entry]\nType=Application\nName=  Ark \nExec=ark %U\nComment=\nGenericName=Archiver\n";
    let e = parse_desktop_entry("/usr/share/applications/org.kde.ark.desktop", ok).unwrap();
    assert_eq!(e.id, "org.kde.ark.desktop");
    assert_eq!(e.name, "Ark");
    assert_eq!(e.comment, None);
    assert_eq!(e.generic_name.as_deref(), Some("Archiver"));
    assert_eq!(e.source, "/usr/share/applications/org.kde.ark.desktop");
    assert_eq!(e.subtitle(), "Archiver");
    assert!(parse_desktop_entry("a.desktop", "[Desktop Entry]\nType=Link\nName=A\nExec=a\n").is_none());
    assert!(parse_desktop_entry("a.desktop", "[Desktop Entry]\nType=Application\nName=A\nExec=a\nHidden=TRUE\n").is_none());
    assert!(parse_desktop_entry("a.desktop", "[Desktop Entry]\nType=Application\nName= \nExec=a\n").is_none());
    assert!(parse_desktop_entry("a.desktop", "[Desktop Entry]\nType=Application\nName=A\n").is_none());
    assert!(parse_desktop_entry("a.desktop", "[Desktop Entry]\nType=Application\nName=A\nExec=a\nNoDisplay=false\n").is_some());
}

#[test]
fn scanning_keeps_the_first_file_of_each_id_and_sorts_by_name() {
    let file = |path: &str, name: &str| DesktopFile {
        path: path.to_owned(),
        content: format!("[Desktop Entry]\nType=Application\nName={name}\nExec=run\n"),
    };
    let files = vec![
        file("/home/u/.local/share/applications/zed.desktop", "Zed (local)"),
        file("/usr/share/applications/b.desktop", "beta"),
        file("/usr/share/applications/zed.desktop", "Zed"),
        DesktopFile { path: "/usr/share/applications/broken.desktop".to_owned(), content: "garbage".to_owned() },
        file("/usr/share/applications/a.desktop", "Alpha"),
    ];
    let entries = scan_desktop_entries(files);
    let names: Vec<&str> = entries.iter().map(|e| e.name.as_str()).collect();
    assert_eq!(names, vec!["Alpha", "beta", "Zed (local)"]);
    assert_eq!(entries[2].source, "/home/u/.local/share/applications/zed.desktop");
}
