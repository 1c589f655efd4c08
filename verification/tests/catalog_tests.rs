use spotlight::app::App;
use spotlight::catalog::catalog;
use spotlight::command::launch_exec;
use spotlight::desktop::parse_desktop;
use spotlight::scan::{
    AppSource, RegistryEntry, application_dirs, registry_entry_app, scan_desktop_files,
    scan_linux_apps, scan_windows_apps, strip_quotes,
};

fn app(name: &str, command: &str) -> App {
    App { name: name.to_string(), command: command.to_string(), comment: None, icon: None }
}

fn names(apps: &[App]) -> Vec<String> {
    apps.iter().map(|a| a.name.clone()).collect()
}

#[test]
fn parse_full_entry() {
    let text = "[Desktop Entry]\nType=Application\nName=Firefox\nComment=Web Browser\nExec=firefox %u\nIcon=firefox\n";
    let a = parse_desktop(text).expect("an application entry");
    assert_eq!(a.name, "Firefox");
    assert_eq!(a.command, "firefox %u");
    assert_eq!(a.comment.as_deref(), Some("Web Browser"));
    assert_eq!(a.icon.as_deref(), Some("firefox"));
}

#[test]
fn parse_trims_lines_and_crlf() {
    let text = "  [Desktop Entry]  \r\n\tType=Application\r\nName=Editor  \r\nExec=  ed file  \r\n";
    let a = parse_desktop(text).expect("an application entry");
    assert_eq!(a.name, "Editor");
    assert_eq!(a.command, "  ed file");
    assert_eq!(a.comment, None);
    assert_eq!(a.icon, None);
}

#[test]
fn parse_first_name_last_exec() {
    let text = "[Desktop Entry]\nType=Application\nName=First\nName=Second\nExec=one\nExec=two\nIcon=a\nIcon=b\nComment=x\nComment=y\n";
    let a = parse_desktop(text).unwrap();
    assert_eq!(a.name, "First");
    assert_eq!(a.command, "two");
    assert_eq!(a.icon.as_deref(), Some("a"));
    assert_eq!(a.comment.as_deref(), Some("x"));
}

#[test]
fn parse_ignores_other_sections() {
    let text = "Name=Outside\n[Desktop Entry]\nType=Application\nName=Inside\nExec=inside\n[Desktop Action new]\nName=Action\nExec=action --new\nNoDisplay=true\n";
    let a = parse_desktop(text).unwrap();
    assert_eq!(a.name, "Inside");
    assert_eq!(a.command, "inside");
}

#[test]
fn parse_hidden_and_nodisplay_entries() {
    let hidden = "[Desktop Entry]\nType=Application\nName=A\nExec=a\nHidden=true\n";
    assert!(parse_desktop(hidden).is_none());
    let nodisplay = "[Desktop Entry]\nNoDisplay=true\nType=Application\nName=A\nExec=a\n";
    assert!(parse_desktop(nodisplay).is_none());
    let shown = "[Desktop Entry]\nType=Application\nName=A\nExec=a\nNoDisplay=false\n";
    assert!(parse_desktop(shown).is_some());
}

#[test]
fn parse_requires_application_name_and_exec() {
    assert!(parse_desktop("[Desktop Entry]\nType=Link\nName=A\nExec=a\n").is_none());
    assert!(parse_desktop("[Desktop Entry]\nType= Application\nName=A\nExec=a\n").is_none());
    assert!(parse_desktop("[Desktop Entry]\nType=Application\nExec=a\n").is_none());
    assert!(parse_desktop("[Desktop Entry]\nType=Application\nName=A\n").is_none());
    assert!(parse_desktop("Type=Application\nName=A\nExec=a\n").is_none());
    assert!(parse_desktop("").is_none());
}

#[test]
fn parse_empty_values() {
    let a = parse_desktop("[Desktop Entry]\nType=Application\nName=\nExec=\n").unwrap();
    assert_eq!(a.name, "");
    assert_eq!(a.command, "");
}

#[test]
fn launch_drops_field_codes() {
    let c = launch_exec("firefox %u").unwrap();
    assert_eq!(c.program, "firefox");
    assert!(c.args.is_empty());
    let c = launch_exec("  env  FOO=1\tapp --flag %F  %k ").unwrap();
    assert_eq!(c.program, "env");
    assert_eq!(c.args, vec!["FOO=1".to_string(), "app".to_string(), "--flag".to_string()]);
}

#[test]
fn launch_without_words() {
    assert!(launch_exec("").is_none());
    assert!(launch_exec("   ").is_none());
    assert!(launch_exec("%f %U").is_none());
}

#[test]
fn launch_splits_on_unicode_whitespace() {
    let c = launch_exec("a\u{3000}b\u{a0}c").unwrap();
    assert_eq!(c.program, "a");
    assert_eq!(c.args, vec!["b".to_string(), "c".to_string()]);
}

#[test]
fn catalog_sorts_and_keeps_one_per_name() {
    let apps = vec![app("zed", "1"), app("Alpha", "2"), app("beta", "3"), app("Alpha", "4"), app("alpha", "5")];
    let out = catalog(apps);
    assert_eq!(names(&out), vec!["Alpha", "alpha", "beta", "zed"]);
    assert_eq!(out[0].command, "2");
}

#[test]
fn catalog_orders_prefix_first_and_by_code_point() {
    let apps = vec![app("ab", "1"), app("a", "2"), app("é", "3"), app("z", "4"), app("", "5")];
    let out = catalog(apps);
    assert_eq!(names(&out), vec!["", "a", "ab", "z", "é"]);
}

#[test]
fn catalog_empty() {
    assert!(catalog(Vec::new()).is_empty());
}

#[test]
fn scan_linux_keeps_applications_sorted() {
    let texts = vec![
        "[Desktop Entry]\nType=Application\nName=Zoo\nExec=zoo\n".to_string(),
        "not a desktop file".to_string(),
        "[Desktop Entry]\nType=Application\nName=Art\nExec=art\n".to_string(),
        "[Desktop Entry]\nType=Application\nName=Zoo\nExec=zoo2\n".to_string(),
    ];
    let out = scan_linux_apps(&texts);
    assert_eq!(names(&out), vec!["Art", "Zoo"]);
    assert_eq!(out[1].command, "zoo");
}

#[test]
fn registry_entry_uses_icon_then_location() {
    let e = RegistryEntry {
        display_name: "Editor".to_string(),
        display_icon: Some("\"C:\\Apps\\ed.exe\"".to_string()),
        install_location: Some("C:\\Apps".to_string()),
    };
    let a = registry_entry_app(&e).unwrap();
    assert_eq!(a.command, "C:\\Apps\\ed.exe");
    assert_eq!(a.icon.as_deref(), Some("C:\\Apps\\ed.exe"));
    assert_eq!(a.comment, None);

    let e = RegistryEntry {
        display_name: "Tool".to_string(),
        display_icon: None,
        install_location: Some("\"C:\\Tool\"".to_string()),
    };
    let a = registry_entry_app(&e).unwrap();
    assert_eq!(a.command, "C:\\Tool");
    assert_eq!(a.icon, None);
}

#[test]
fn registry_entry_skips_updates_and_empty() {
    let upd = RegistryEntry {
        display_name: "Security Update for X".to_string(),
        display_icon: Some("x.exe".to_string()),
        install_location: None,
    };
    assert!(registry_entry_app(&upd).is_none());
    let lower = RegistryEntry {
        display_name: "updater".to_string(),
        display_icon: Some("u.exe".to_string()),
        install_location: None,
    };
    assert!(registry_entry_app(&lower).is_some());
    let empty = RegistryEntry {
        display_name: "Empty".to_string(),
        display_icon: Some("\"\"".to_string()),
        install_location: Some("C:\\E".to_string()),
    };
    assert!(registry_entry_app(&empty).is_none());
    let none = RegistryEntry { display_name: "None".to_string(), display_icon: None, install_location: None };
    assert!(registry_entry_app(&none).is_none());
}

#[test]
fn scan_windows_sorted() {
    let entries = vec![
        RegistryEntry { display_name: "b".to_string(), display_icon: Some("b.exe".to_string()), install_location: None },
        RegistryEntry { display_name: "a".to_string(), display_icon: None, install_location: Some("C:\\a".to_string()) },
    ];
    let out = scan_windows_apps(&entries);
    assert_eq!(names(&out), vec!["a", "b"]);
}

#[test]
fn scan_by_source() {
    let texts = vec!["[Desktop Entry]\nType=Application\nName=A\nExec=a\n".to_string()];
    assert_eq!(names(&scan_desktop_files(&AppSource::DesktopFiles(texts))), vec!["A"]);
    assert!(scan_desktop_files(&AppSource::Unsupported).is_empty());
    let entries = vec![RegistryEntry { display_name: "W".to_string(), display_icon: Some("w.exe".to_string()), install_location: None }];
    assert_eq!(names(&scan_desktop_files(&AppSource::Registry(entries))), vec!["W"]);
}

#[test]
fn strip_quotes_both_ends() {
    assert_eq!(strip_quotes("\"\"a\"b\"\""), "a\"b");
    assert_eq!(strip_quotes("\"\"\""), "");
    assert_eq!(strip_quotes("plain"), "plain");
}

#[test]
fn application_dirs_for_home() {
    let dirs = application_dirs("/home/u");
    assert_eq!(
        dirs,
        vec![
            "/usr/share/applications".to_string(),
            "/usr/local/share/applications".to_string(),
            "/var/lib/flatpak/exports/share/applications".to_string(),
            "/var/lib/snapd/desktop/applications".to_string(),
            "/home/u/.local/share/applications".to_string(),
            "/home/u/.local/share/flatpak/exports/share/applications".to_string(),
        ]
    );
}

#[test]
fn catalog_names_independent_of_input_order() {
    let a = catalog(vec![app("b", "1"), app("a", "2"), app("b", "3"), app("c", "4")]);
    let b = catalog(vec![app("c", "4"), app("b", "3"), app("a", "2"), app("b", "1")]);
    assert_eq!(names(&a), names(&b));
    assert_eq!(names(&a), vec!["a", "b", "c"]);
}
