use optionfiles::gui::{filter_unchanged, row_for_sort, sort_for_row};
use optionfiles::app::{App, Clipboard, ClipboardMode};
use optionfiles::fs::{Entry, SortMode, Timestamp};
use optionfiles::gui::{
    favorite_contains, grid_columns, mode_string, owner_text, parse_args, properties,
    remove_favorite, row_step, sort_label, status_line, toggle_favorite, window_key, History,
    WindowCommand,
};
use optionfiles::cli::UnixMeta;
use optionfiles::input::Key;
use optionfiles::places::{favorite_places, fixed_places, place_tap, Place, Tap, XdgDirs};

fn entry(name: &str, dir: bool) -> Entry {
    Entry {
        path: format!("/r/{name}"),
        name: name.to_string(),
        is_dir: dir,
        is_symlink: false,
        size: 2048,
        modified: Some(Timestamp { secs: 86400, nanos: 0 }),
    }
}

#[test]
fn status_bar_lists_the_state() {
    let mut app = App::new("/r".into(), false, Ok(vec![entry("a", false)]), None).unwrap();
    assert_eq!(status_line(&app), "1 item · ordem nome");
    app.filter = "x".into();
    app.sort = SortMode::Modified;
    app.clipboard = Some(Clipboard { path: "/r/a".into(), mode: ClipboardMode::Copy });
    app.status = "refreshed".into();
    assert_eq!(status_line(&app), "1 item · ordem data · filtro 'x' · copiar a · refreshed");
    assert_eq!(sort_label(SortMode::Size), "tamanho");
}

#[test]
fn history_goes_back_and_forward() {
    let mut h = History::new();
    h.begin(true);
    h.finish(Some("/a".into()), true, false);
    h.begin(true);
    h.finish(Some("/b".into()), true, false);
    assert_eq!(h.back, vec!["/a", "/b"]);
    assert_eq!(h.go_back(Some("/c".into())), Some("/b".to_string()));
    h.begin(false);
    h.finish(Some("/c".into()), true, false);
    assert_eq!(h.back, vec!["/a"]);
    assert_eq!(h.forward, vec!["/c"]);
    assert_eq!(h.go_forward(Some("/b".into())), Some("/c".to_string()));
    assert_eq!(h.back, vec!["/a", "/b"]);
    assert!(h.forward.is_empty());
    // A new folder change clears the forward stack; failures record nothing.
    h.go_back(Some("/c".into()));
    h.begin(true);
    h.finish(Some("/b".into()), true, false);
    assert!(h.forward.is_empty());
    h.begin(false);
    h.finish(None, false, true);
    assert!(!h.skip_record);
    assert_eq!(History::new().go_back(None), None);
}

#[test]
fn favorites_toggle() {
    let mut favs: Vec<String> = vec!["/x".into()];
    toggle_favorite(&mut favs, "/home/u");
    assert_eq!(favs, vec!["/x", "/home/u"]);
    assert!(favorite_contains(&favs, "/home/u/"));
    toggle_favorite(&mut favs, "/home/u/");
    assert_eq!(favs, vec!["/x"]);
    remove_favorite(&mut favs, 3);
    assert_eq!(favs, vec!["/x"]);
    remove_favorite(&mut favs, 0);
    assert!(favs.is_empty());
}

#[test]
fn launch_arguments() {
    let args = |v: &[&str]| v.iter().map(|s| s.to_string()).collect::<Vec<String>>();
    let l = parse_args(&args(&["fls", "-a", "/tmp", "/other"]));
    assert_eq!((l.dir.as_deref(), l.show_hidden, l.help), (Some("/tmp"), Some(true), false));
    let l = parse_args(&args(&["fls", "/tmp", "--help", "-a"]));
    assert_eq!((l.dir.as_deref(), l.show_hidden, l.help), (Some("/tmp"), None, true));
    let l = parse_args(&args(&["fls"]));
    assert_eq!((l.dir, l.show_hidden, l.help), (None, None, false));
}

#[test]
fn permissions_and_properties() {
    assert_eq!(mode_string(false, false, 0o644), "-rw-r--r--");
    assert_eq!(mode_string(true, false, 0o755), "drwxr-xr-x");
    assert_eq!(mode_string(false, true, 0o777), "lrwxrwxrwx");
    assert_eq!(owner_text(1000, 100), "uid 1000 · gid 100");
    let p = properties(&entry("docs", true), Some(UnixMeta { mode: 0o700, uid: 1, gid: 2 }));
    assert_eq!(p, vec!["docs", "directory", "—", "/r/docs", "drwx------", "uid 1 · gid 2", "1970-01-02 00:00"]);
    let mut e = entry("a", false);
    e.modified = None;
    let p = properties(&e, None);
    assert_eq!(p, vec!["a", "file", "2.0 KB", "/r/a", "—", "—", "unknown"]);
}

#[test]
fn window_keys() {
    assert_eq!(grid_columns(0), 1);
    assert_eq!(grid_columns(500), 4);
    assert_eq!(row_step(true, 0), 1);
    assert_eq!(row_step(true, 4), 4);
    assert_eq!(row_step(false, 4), 1);
    let k = |key, modified, in_search, empty, in_browser| window_key(key, modified, in_search, empty, in_browser, 4);
    assert_eq!(k(Key::Char('j'), false, false, true, true), WindowCommand::Move(4));
    assert_eq!(k(Key::PageUp, false, false, true, true), WindowCommand::Move(-12));
    assert_eq!(k(Key::Char('j'), true, false, true, true), WindowCommand::Pass);
    assert_eq!(k(Key::Char('j'), false, true, true, true), WindowCommand::Pass);
    assert_eq!(k(Key::Esc, false, true, false, false), WindowCommand::ClearSearch);
    assert_eq!(k(Key::Esc, false, true, true, false), WindowCommand::CloseSearch);
    assert_eq!(k(Key::Esc, false, false, true, true), WindowCommand::Pass);
    assert_eq!(k(Key::Enter, false, false, true, false), WindowCommand::Activate);
    assert_eq!(k(Key::Enter, false, false, true, true), WindowCommand::Pass);
    assert_eq!(k(Key::Char(' '), false, false, true, true), WindowCommand::Pass);
    assert_eq!(k(Key::Char('/'), false, false, true, true), WindowCommand::Search);
}

#[test]
fn window_navigation() {
    let mut app = App::new("/r".into(), false, Ok(vec![entry("a", false)]), None).unwrap();
    assert!(!app.navigate("/r/".into()));
    assert!(app.navigate("/s".into()));
    assert_eq!((app.cwd.as_str(), app.previous_dir.as_deref()), ("/s", Some("/r")));
    app.jump("/t".into());
    assert_eq!((app.cwd.as_str(), app.previous_dir.as_deref()), ("/t", Some("/s")));
    assert!(app.select(0));
    assert!(!app.select(5));
}

#[test]
fn sidebar_rows() {
    let xdg = XdgDirs::fallback("/home/u");
    let rows = fixed_places("/home/u", "/home/u/.local/share/Trash/files", &xdg, "/home/u/Music");
    let labels: Vec<&str> = rows.iter().map(|r| r.label.as_str()).collect();
    assert_eq!(
        labels,
        vec![
            "Pasta pessoal", "Recentes", "Favoritos", "Rede", "Lixeira", "Área de trabalho",
            "Documentos", "Downloads", "Imagens", "Videos", "Músicas", "Projects"
        ]
    );
    let current: Vec<&str> = rows.iter().filter(|r| r.current).map(|r| r.label.as_str()).collect();
    assert_eq!(current, vec!["Músicas"]);
    assert_eq!(rows[3].icon, "network-server");
    let favs = vec!["/data/Work".to_string()];
    let fav_rows = favorite_places(&favs, "/data/Work");
    assert_eq!((fav_rows[0].label.as_str(), fav_rows[0].icon.as_str(), fav_rows[0].current), ("Work", "folder", true));
    assert!(matches!(place_tap(&Place::Favorites, &favs), Tap::Dir(ref p) if p == "/data/Work"));
    assert!(matches!(place_tap(&Place::Favorites, &vec![]), Tap::Nothing));
    assert!(matches!(place_tap(&Place::Network, &favs), Tap::Network));
    assert!(matches!(place_tap(&rows[0].target, &favs), Tap::Dir(ref p) if p == "/home/u"));
}

#[test]
fn sort_selector_and_search_box() {
    assert_eq!(sort_for_row(0), SortMode::Name);
    assert_eq!(sort_for_row(1), SortMode::Size);
    assert_eq!(sort_for_row(2), SortMode::Modified);
    assert_eq!(sort_for_row(7), SortMode::Name);
    assert_eq!(row_for_sort(SortMode::Name), 0);
    assert_eq!(row_for_sort(SortMode::Size), 1);
    assert_eq!(row_for_sort(SortMode::Modified), 2);
    assert!(filter_unchanged(None, "abc"));
    assert!(filter_unchanged(Some("abc"), "abc"));
    assert!(!filter_unchanged(Some("abc"), "ab"));
}
