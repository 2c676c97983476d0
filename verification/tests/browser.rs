use optionfiles::app::{copy_candidate, copy_step, paste_target, validate_entry_name, App, ClipboardMode, Enter, Paste};
use optionfiles::fs::{Entry, SortMode, Timestamp};

fn file(dir: &str, name: &str, size: u64) -> Entry {
    Entry {
        path: format!("{dir}/{name}"),
        name: name.to_string(),
        is_dir: false,
        is_symlink: false,
        size,
        modified: Some(Timestamp { secs: size as i64, nanos: 0 }),
    }
}

fn folder(dir: &str, name: &str) -> Entry {
    Entry {
        path: format!("{dir}/{name}"),
        name: name.to_string(),
        is_dir: true,
        is_symlink: false,
        size: 4096,
        modified: None,
    }
}

fn names(app: &App) -> Vec<String> {
    app.entries.iter().map(|e| e.name.clone()).collect()
}

fn listing() -> Vec<Entry> {
    vec![
        file("/r", "beta.txt", 30),
        folder("/r", "src"),
        file("/r", ".hidden", 1),
        file("/r", "Alpha.txt", 20),
        folder("/r", "Docs"),
    ]
}

#[test]
fn creates_renames_and_copies_entries() {
    let mut app = App::new("/r".into(), false, Ok(vec![]), None).unwrap();
    assert_eq!(app.entry_target("draft.txt").unwrap(), "/r/draft.txt");
    assert!(app.create_file("draft.txt", Ok(())).is_ok());
    assert_eq!(app.status, "created draft.txt");
    app.refresh(Ok(vec![file("/r", "draft.txt", 0)])).unwrap();
    app.selected = app.entries.iter().position(|e| e.name == "draft.txt").unwrap();
    let (from, to) = app.rename_target("notes.txt").unwrap();
    assert_eq!((from.as_str(), to.as_str()), ("/r/draft.txt", "/r/notes.txt"));
    app.rename_current("notes.txt", Ok(())).unwrap();
    assert_eq!(app.status, "renamed to notes.txt");
    app.refresh(Ok(vec![file("/r", "notes.txt", 0)])).unwrap();
    app.selected = app.entries.iter().position(|e| e.name == "notes.txt").unwrap();
    app.set_clipboard(ClipboardMode::Copy, None);
    assert_eq!(app.status, "copied");
    match app.paste_plan(None).unwrap() {
        Paste::Transfer { from, to, mode } => {
            assert_eq!(from, "/r/notes.txt");
            assert_eq!(to, "/r/notes.txt");
            assert_eq!(mode, ClipboardMode::Copy);
            // The target exists: the first free copy name is used.
            let (candidate, sidecar) = copy_candidate(&to, 1);
            assert_eq!(candidate, "/r/notes copy 1.txt");
            assert_eq!(sidecar, "/r/notes copy 1.txt.trashinfo");
            app.pasted(&candidate, mode);
            assert_eq!(app.status, "pasted notes copy 1.txt");
        }
        _ => panic!("expected a transfer"),
    }
}

#[test]
fn filters_entries_and_restores_full_directory() {
    let dir = || Ok(vec![file("/r", "alpha.txt", 1), file("/r", "beta.txt", 1)]);
    let mut app = App::new("/r".into(), false, dir(), None).unwrap();
    app.set_filter("ALP".into(), dir()).unwrap();
    assert_eq!(app.entries.len(), 1);
    assert_eq!(app.entries[0].name, "alpha.txt");
    app.set_filter(String::new(), dir()).unwrap();
    assert_eq!(app.entries.len(), 2);
}

#[test]
fn rejects_parent_dir_names() {
    let app = App::new("/r".into(), false, Ok(vec![]), None).unwrap();
    assert!(app.entry_target("../escape.txt").is_err());
    assert!(app.entry_target("..").is_err());
    assert!(validate_entry_name("../escape.txt").is_err());
}

#[test]
fn rejects_nested_relative_names() {
    let app = App::new("/r".into(), false, Ok(vec![]), None).unwrap();
    assert!(app.entry_target("a/b.txt").is_err());
    assert!(app.entry_target("nested/dir").is_err());
}

#[test]
fn rejects_escape_on_rename() {
    let mut app = App::new("/r".into(), false, Ok(vec![file("/r", "ok.txt", 1)]), None).unwrap();
    app.selected = app.entries.iter().position(|e| e.name == "ok.txt").unwrap();
    assert!(app.rename_target("../x").is_err());
    assert_eq!(names(&app), vec!["ok.txt"]);
}

#[test]
fn name_errors_are_worded() {
    assert_eq!(validate_entry_name("  ").unwrap_err(), "name is empty");
    assert_eq!(validate_entry_name(".").unwrap_err(), "name must be a single path segment");
    assert_eq!(validate_entry_name("a\\b").unwrap_err(), "name must be a single path segment");
    assert_eq!(validate_entry_name("a\0b").unwrap_err(), "name must be a single path segment");
    assert!(validate_entry_name(" notes.txt ").is_ok());
    assert!(validate_entry_name("...").is_ok());
}

#[test]
fn listing_groups_directories_and_hides_dotfiles() {
    let app = App::new("/r".into(), false, Ok(listing()), None).unwrap();
    assert_eq!(names(&app), vec!["Docs", "src", "Alpha.txt", "beta.txt"]);
    let app = App::new("/r".into(), true, Ok(listing()), Some("beta.txt".into())).unwrap();
    assert_eq!(names(&app), vec!["Docs", "src", ".hidden", "Alpha.txt", "beta.txt"]);
    assert_eq!(app.selected, 4);
}

#[test]
fn sorting_by_size_and_date() {
    let mut app = App::new("/r".into(), false, Ok(listing()), None).unwrap();
    app.cycle_sort(Ok(listing())).unwrap();
    assert_eq!(app.sort, SortMode::Size);
    assert_eq!(names(&app), vec!["Docs", "src", "Alpha.txt", "beta.txt"]);
    app.cycle_sort(Ok(listing())).unwrap();
    assert_eq!(app.sort, SortMode::Modified);
    assert_eq!(names(&app), vec!["Docs", "src", "Alpha.txt", "beta.txt"]);
    app.cycle_sort(Ok(listing())).unwrap();
    assert_eq!(app.sort, SortMode::Name);
}

#[test]
fn selection_stays_in_range() {
    let mut app = App::new("/r".into(), false, Ok(listing()), None).unwrap();
    app.move_by(-5);
    assert_eq!(app.selected, 0);
    app.move_by(100);
    assert_eq!(app.selected, 3);
    app.move_by(isize::MIN);
    assert_eq!(app.selected, 0);
    app.move_by(isize::MAX);
    assert_eq!(app.selected, 3);
    app.home();
    assert_eq!(app.selected, 0);
    app.end();
    assert_eq!(app.selected, 3);
    assert_eq!(app.current().unwrap().name, "beta.txt");
}

#[test]
fn refresh_keeps_the_selected_name() {
    let mut app = App::new("/r".into(), false, Ok(listing()), Some("beta.txt".into())).unwrap();
    assert_eq!(app.selected, 3);
    let mut l = listing();
    l.push(file("/r", "aaa.txt", 1));
    app.refresh(Ok(l)).unwrap();
    assert_eq!(app.current().unwrap().name, "beta.txt");
    app.refresh(Ok(vec![file("/r", "z", 1)])).unwrap();
    assert_eq!(app.selected, 0);
    assert!(app.refresh(Err("gone".into())).is_err());
}

#[test]
fn previous_location_toggles() {
    let mut app = App::new("/r".into(), false, Ok(listing()), None).unwrap();
    assert!(!app.go_previous());
    assert_eq!(app.status, "no previous location");
    app.go_home(Ok("/home/u".into())).unwrap();
    assert_eq!(app.cwd, "/home/u");
    assert!(app.go_previous());
    assert_eq!(app.cwd, "/r");
    assert!(app.go_previous());
    assert_eq!(app.cwd, "/home/u");
    assert_eq!(app.previous_dir.as_deref(), Some("/r"));
}

#[test]
fn entering_and_leaving_directories() {
    let mut app = App::new("/r".into(), false, Ok(listing()), None).unwrap();
    match app.enter() {
        Enter::Descend(p) => assert_eq!(p, "/r/Docs"),
        _ => panic!("expected a directory"),
    }
    assert_eq!(app.previous_dir.as_deref(), Some("/r"));
    app.open_dir("/r/Docs".into());
    app.refresh(Ok(vec![])).unwrap();
    assert!(matches!(app.enter(), Enter::Nothing));
    assert!(app.parent());
    assert_eq!(app.cwd, "/r");
    app.refresh(Ok(listing())).unwrap();
    app.select_previous_child();
    assert_eq!(app.current().unwrap().name, "Docs");
    app.end();
    match app.enter() {
        Enter::Open(p) => assert_eq!(p, "/r/beta.txt"),
        _ => panic!("expected a file"),
    }
}

#[test]
fn clipboard_and_paste_decisions() {
    let mut app = App::new("/r".into(), false, Ok(listing()), Some("beta.txt".into())).unwrap();
    assert!(matches!(app.paste_plan(None).unwrap(), Paste::Empty));
    assert_eq!(app.status, "clipboard empty");
    match app.paste_plan(Some("/other/x.bin".into())).unwrap() {
        Paste::Transfer { from, to, mode } => {
            assert_eq!((from.as_str(), to.as_str(), mode), ("/other/x.bin", "/r/x.bin", ClipboardMode::Copy));
        }
        _ => panic!("expected a transfer"),
    }
    app.set_clipboard(ClipboardMode::Cut, Some("wl-copy".into()));
    assert_eq!(app.status, "cut (wl-copy)");
    assert!(matches!(app.paste_plan(None).unwrap(), Paste::AlreadyHere));
    assert_eq!(app.status, "already here");
    app.clipboard.as_mut().unwrap().path = "/".into();
    assert_eq!(app.paste_plan(None).unwrap_err(), "invalid clipboard path");
}

#[test]
fn deleting_names_the_trashed_entry() {
    let mut app = App::new("/r".into(), false, Ok(listing()), Some("src".into())).unwrap();
    assert_eq!(app.delete_target().unwrap(), "/r/src");
    app.delete_current(Ok(())).unwrap();
    assert_eq!(app.status, "moved src to trash");
    let mut empty = App::new("/r".into(), false, Ok(vec![]), None).unwrap();
    assert_eq!(empty.delete_target().unwrap_err(), "nothing selected");
    assert!(empty.delete_current(Ok(())).is_err());
}

#[test]
fn paste_names_avoid_collisions() {
    assert_eq!(paste_target("/r/new.txt", false), Ok("/r/new.txt".to_string()));
    assert_eq!(paste_target("/r/notes.txt", true), Err(1));
    assert_eq!(copy_step("/r/notes.txt", 1, true, false), Err(2));
    assert_eq!(copy_step("/r/notes.txt", 2, false, true), Err(3));
    assert_eq!(copy_step("/r/notes.txt", 3, false, false), Ok("/r/notes copy 3.txt".to_string()));
    assert_eq!(copy_step("/r/Makefile", 1, false, false), Ok("/r/Makefile copy 1".to_string()));
}

#[test]
fn copy_names_of_dotfiles_and_double_extensions() {
    assert_eq!(copy_candidate("/r/.bashrc", 1).0, "/r/.bashrc copy 1");
    assert_eq!(copy_candidate("/r/a.tar.gz", 2).0, "/r/a.tar copy 2.gz");
    assert_eq!(copy_candidate("/r/a.", 1).0, "/r/a copy 1.");
}
