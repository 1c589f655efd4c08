use spotlight::app::App;
use spotlight::icon::{
    DirectIcon, ICON_SIZE, Picture, choose_icon, icon_pixels, direct_icon, find_linux_icon, first_existing, icon_candidates, icon_lookup_name, is_desktop_entry,
    load_icon_image, resolve_icon_path,
};
use spotlight::launcher::{KeyInput, MAX_ITEMS, Spotlight, fallback_glyph};

const HOTKEY: u32 = 77;

fn app(name: &str, command: &str) -> App {
    App { name: name.to_string(), command: command.to_string(), comment: None, icon: None }
}

fn launcher() -> Spotlight {
    Spotlight::new(
        vec![app("Firefox", "firefox %u"), app("Files", "nautilus --new-window"), app("Terminal", "gnome-terminal")],
        HOTKEY,
    )
}

fn keys(escape: bool, enter: bool, down: bool, up: bool) -> KeyInput {
    KeyInput { escape, enter, down, up }
}

fn result_names(s: &Spotlight) -> Vec<String> {
    s.results().iter().map(|a| a.name.clone()).collect()
}

#[test]
fn new_launcher_is_hidden() {
    let s = launcher();
    assert!(!s.is_visible());
    assert!(s.results().is_empty());
    assert_eq!(s.query(), "");
    assert_eq!(s.selected(), 0);
    assert_eq!(s.hotkey_id(), HOTKEY);
    assert_eq!(s.all_apps().len(), 3);
}

#[test]
fn hotkey_toggles_window() {
    let mut s = launcher();
    assert_eq!(s.on_hotkey(HOTKEY + 1, true), None);
    assert!(!s.is_visible());
    assert_eq!(s.on_hotkey(HOTKEY, false), None);
    assert!(!s.is_visible());
    assert_eq!(s.on_hotkey(HOTKEY, true), Some(true));
    assert!(s.is_visible());
    assert_eq!(result_names(&s), vec!["Firefox", "Files", "Terminal"]);
    assert_eq!(s.on_hotkey(HOTKEY, true), Some(false));
    assert!(!s.is_visible());
    assert!(s.results().is_empty());
    assert_eq!(s.on_hotkey(HOTKEY, true), Some(true));
    assert_eq!(s.results().len(), 3);
}

#[test]
fn query_filters_ignoring_case() {
    let mut s = launcher();
    s.show();
    s.set_query("FI".to_string());
    assert_eq!(result_names(&s), vec!["Firefox", "Files"]);
    s.set_query("fox".to_string());
    assert_eq!(result_names(&s), vec!["Firefox"]);
    s.set_query("xyz".to_string());
    assert!(s.results().is_empty());
    s.set_query(String::new());
    assert_eq!(s.results().len(), 3);
}

#[test]
fn query_matches_fuzzily() {
    let mut s = Spotlight::new(vec![app("Firefox", "firefox")], HOTKEY);
    s.show();
    s.set_query("ffx".to_string());
    assert_eq!(result_names(&s), vec!["Firefox"]);
    s.set_query("FRX".to_string());
    assert_eq!(result_names(&s), vec!["Firefox"]);
    s.set_query("xf".to_string());
    assert!(s.results().is_empty());
    s.set_query("firefoxx".to_string());
    assert!(s.results().is_empty());
}

#[test]
fn narrowing_query_keeps_subset() {
    let mut s = launcher();
    s.show();
    s.set_query("f".to_string());
    let wide = result_names(&s);
    s.set_query("fil".to_string());
    let narrow = result_names(&s);
    let mut at = 0;
    for n in &narrow {
        while wide[at] != *n {
            at += 1;
        }
        at += 1;
    }
    assert_eq!(narrow, vec!["Files"]);
}

#[test]
fn arrows_move_within_results() {
    let mut s = launcher();
    s.show();
    s.handle_keys(keys(false, false, false, true));
    assert_eq!(s.selected(), 0);
    s.handle_keys(keys(false, false, true, false));
    s.handle_keys(keys(false, false, true, false));
    assert_eq!(s.selected(), 2);
    s.handle_keys(keys(false, false, true, false));
    assert_eq!(s.selected(), 2);
    s.handle_keys(keys(false, false, false, true));
    assert_eq!(s.selected(), 1);
    s.handle_keys(keys(false, false, true, true));
    assert_eq!(s.selected(), 1);
    s.set_query("term".to_string());
    assert_eq!(s.selected(), 0);
}

#[test]
fn enter_launches_selected_and_hides() {
    let mut s = launcher();
    s.show();
    s.handle_keys(keys(false, false, true, false));
    let out = s.handle_keys(keys(false, true, false, false));
    assert!(out.close);
    let cmd = out.launch.expect("a command");
    assert_eq!(cmd.program, "nautilus");
    assert_eq!(cmd.args, vec!["--new-window".to_string()]);
    assert!(!s.is_visible());
    assert!(s.results().is_empty());
    assert_eq!(s.query(), "");
}

#[test]
fn enter_uses_selection_after_arrows() {
    let mut s = launcher();
    s.show();
    let out = s.handle_keys(keys(false, true, true, false));
    assert_eq!(out.launch.unwrap().program, "nautilus");
}

#[test]
fn enter_without_results_launches_nothing() {
    let mut s = launcher();
    s.show();
    s.set_query("nothing matches".to_string());
    let out = s.handle_keys(keys(false, true, false, false));
    assert!(out.close);
    assert!(out.launch.is_none());
    assert!(!s.is_visible());
}

#[test]
fn escape_hides_without_launch() {
    let mut s = launcher();
    s.show();
    s.set_query("fire".to_string());
    let out = s.handle_keys(keys(true, false, false, false));
    assert!(out.close);
    assert!(out.launch.is_none());
    assert!(!s.is_visible());
    assert_eq!(s.query(), "");
    assert!(s.results().is_empty());
}

#[test]
fn no_keys_change_nothing() {
    let mut s = launcher();
    s.show();
    let out = s.handle_keys(keys(false, false, false, false));
    assert!(!out.close);
    assert!(out.launch.is_none());
    assert!(s.is_visible());
    assert_eq!(s.results().len(), 3);
}

#[test]
fn launch_direct() {
    let mut s = launcher();
    assert!(s.launch().is_none());
    s.show();
    let c = s.launch().unwrap();
    assert_eq!(c.program, "firefox");
    assert!(c.args.is_empty());
}

#[test]
fn rows_hover_and_click() {
    let many: Vec<App> = (0..12).map(|i| app(&format!("App{:02}", i), &format!("run{} %f", i))).collect();
    let mut s = Spotlight::new(many, HOTKEY);
    s.show();
    assert_eq!(s.visible_rows(), MAX_ITEMS);
    s.hover(5);
    assert_eq!(s.selected(), 5);
    s.hover(MAX_ITEMS);
    assert_eq!(s.selected(), 5);
    assert_eq!(s.row_command(3).unwrap().program, "run3");
    assert!(s.row_command(MAX_ITEMS).is_none());
    s.set_query("App1".to_string());
    assert_eq!(result_names(&s), vec!["App01", "App10", "App11"]);
    assert_eq!(s.visible_rows(), 3);
    assert!(s.row_command(3).is_none());
}

#[test]
fn focus_and_position_requested_once_per_show() {
    let mut s = launcher();
    s.show();
    assert!(s.take_focus_request());
    assert!(!s.take_focus_request());
    assert!(s.take_position_request());
    assert!(!s.take_position_request());
    s.hide_window();
    s.show();
    assert!(s.take_focus_request());
    assert!(s.take_position_request());
}

#[test]
fn glyph_of_name() {
    assert_eq!(fallback_glyph("Firefox"), "F");
    assert_eq!(fallback_glyph("éclair"), "é");
    assert_eq!(fallback_glyph(""), "?");
}

#[test]
fn icon_reference_cleanup() {
    assert_eq!(icon_lookup_name("\"C:\\Apps\\ed.exe\",0"), "C:\\Apps\\ed.exe\"");
    assert_eq!(icon_lookup_name("\"C:\\Apps\\ed.exe,0\""), "C:\\Apps\\ed.exe");
    assert_eq!(icon_lookup_name("  firefox  "), "firefox");
    assert_eq!(icon_lookup_name("\" spaced , 3\""), "spaced");
    assert_eq!(icon_lookup_name(""), "");
}

#[test]
fn icon_candidates_in_order() {
    let c = icon_candidates("firefox");
    assert_eq!(c.len(), 12);
    assert_eq!(c[0], "/usr/share/icons/hicolor/256x256/apps/firefox.png");
    assert_eq!(c[1], "/usr/share/icons/hicolor/256x256/apps/firefox.ico");
    assert_eq!(c[2], "/usr/share/icons/hicolor/256x256/apps/firefox.xpm");
    assert_eq!(c[3], "/usr/share/icons/hicolor/128x128/apps/firefox.png");
    assert_eq!(c[11], "/usr/share/pixmaps/firefox.xpm");
}

#[test]
fn icon_candidates_with_slash() {
    let c = icon_candidates("/opt/app/icon");
    assert_eq!(c.len(), 13);
    assert_eq!(c[0], "/opt/app/icon");
    assert_eq!(c[1], "/opt/app/icon.png");
    let r = icon_candidates("sub/icon");
    assert_eq!(r[0], "sub/icon");
    assert_eq!(r[1], "/usr/share/icons/hicolor/256x256/apps/sub/icon.png");
}

#[test]
fn missing_icons_resolve_to_nothing() {
    assert!(find_linux_icon("no-such-icon-name-3f9a1c").is_none());
    assert!(resolve_icon_path("\"/no/such/dir/app.png\",0", true).is_none());
    assert!(resolve_icon_path("no-such-icon-name-3f9a1c", false).is_none());
}

#[test]
fn first_existing_takes_first_found() {
    let cands: Vec<String> = vec!["a".to_string(), "b".to_string(), "c".to_string()];
    assert_eq!(first_existing(&cands, &vec![false, true, true]), Some("b".to_string()));
    assert_eq!(first_existing(&cands, &vec![true]), Some("a".to_string()));
    assert_eq!(first_existing(&cands, &vec![false, false]), None);
    assert_eq!(first_existing(&cands, &vec![]), None);
}

#[test]
fn choose_icon_prefers_file_then_sibling_then_theme() {
    let themed = Some("/usr/share/pixmaps/app.png".to_string());
    assert_eq!(choose_icon("/opt/a/app.PNG", true, false, themed.clone()), Some("/opt/a/app.PNG".to_string()));
    assert_eq!(choose_icon("/opt/a/app.PNG", false, false, themed.clone()), themed.clone());
    assert_eq!(choose_icon("/opt/a/app.exe", true, true, themed.clone()), Some("/opt/a/app.ico".to_string()));
    assert_eq!(choose_icon("/opt/a/app.exe", true, false, themed.clone()), themed.clone());
    assert_eq!(choose_icon("/opt/a/app.exe", false, true, None), None);
    assert_eq!(choose_icon("app", true, true, None), None);
}

#[test]
fn direct_icon_by_extension() {
    assert!(matches!(direct_icon("/x/app.PNG"), DirectIcon::Image));
    assert!(matches!(direct_icon("pic.jpeg"), DirectIcon::Image));
    match direct_icon("/opt/tool/app.EXE") {
        DirectIcon::Sibling(p) => assert_eq!(p, "/opt/tool/app.ico"),
        _ => panic!("a program file gives its .ico sibling"),
    }
    assert!(matches!(direct_icon("noext"), DirectIcon::Neither));
    assert!(matches!(direct_icon("icon.xpm"), DirectIcon::Neither));
    assert!(matches!(direct_icon("/x/.png"), DirectIcon::Neither));
}

#[test]
fn desktop_file_extension() {
    assert!(is_desktop_entry("/usr/share/applications/firefox.desktop"));
    assert!(is_desktop_entry("a.b.desktop"));
    assert!(!is_desktop_entry("firefox.desktop.bak"));
    assert!(!is_desktop_entry("/x/.desktop"));
    assert!(!is_desktop_entry("firefox.DESKTOP"));
    assert!(!is_desktop_entry("firefox"));
}

const RED_PIXEL_PNG: [u8; 70] = [
    137, 80, 78, 71, 13, 10, 26, 10, 0, 0, 0, 13, 73, 72, 68, 82, 0, 0, 0, 1, 0, 0, 0, 1, 8, 6, 0,
    0, 0, 31, 21, 196, 137, 0, 0, 0, 13, 73, 68, 65, 84, 120, 156, 99, 248, 207, 192, 240, 31, 0,
    5, 0, 1, 255, 137, 153, 61, 29, 0, 0, 0, 0, 73, 69, 78, 68, 174, 66, 96, 130,
];

#[test]
fn icon_image_scaled() {
    let px = load_icon_image(&RED_PIXEL_PNG).expect("a decoded picture");
    assert_eq!(px.len(), (ICON_SIZE * ICON_SIZE * 4) as usize);
    assert!(px[0] >= 250 && px[1] <= 5 && px[2] <= 5 && px[3] >= 250);
}

#[test]
fn icon_image_rejects_garbage() {
    assert!(load_icon_image(b"definitely not an image").is_none());
    assert!(load_icon_image(&[]).is_none());
}

#[test]
fn icon_pixels_of_decoded_picture() {
    assert!(icon_pixels(None).is_none());
    let side = ICON_SIZE as usize;
    let same: Vec<u8> = (0..side * side * 4).map(|i| (i % 251) as u8).collect();
    let px = icon_pixels(Some(Picture { width: ICON_SIZE, height: ICON_SIZE, pixels: same.clone() }))
        .expect("pixels");
    assert_eq!(px, same);
    let empty = icon_pixels(Some(Picture { width: 0, height: 0, pixels: Vec::new() })).expect("pixels");
    assert_eq!(empty.len(), side * side * 4);
    assert!(empty.iter().all(|b| *b == 0));
    let small = icon_pixels(Some(Picture { width: 3, height: 2, pixels: vec![200u8; 24] })).expect("pixels");
    assert_eq!(small.len(), side * side * 4);
}
