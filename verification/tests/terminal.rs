use optionfiles::app::{App, ClipboardMode};
use optionfiles::fs::{Entry, Timestamp};
use optionfiles::input::{
    command_for, editor_command, editor_script, handle_key, handle_mouse, Action, Key,
    KeyCommand, Mouse,
};
use optionfiles::kitty::KittyPreview;
use optionfiles::metadata::relative_time;
use optionfiles::ui::{
    compact_path, is_text_file, layout, preview_lines, state_line, PreviewInfo, Prompt,
    PromptKind, TerminalUi, Tone,
};

fn entry(name: &str, dir: bool, size: u64) -> Entry {
    Entry {
        path: format!("/r/{name}"),
        name: name.to_string(),
        is_dir: dir,
        is_symlink: false,
        size,
        modified: Some(Timestamp { secs: 0, nanos: 0 }),
    }
}

fn browser() -> App {
    let listing = vec![
        entry("docs", true, 4096),
        entry("a.txt", false, 1536),
        entry("b.png", false, 12),
    ];
    App::new("/r".into(), false, Ok(listing), None).unwrap()
}

fn none() -> PreviewInfo {
    PreviewInfo { text: None, age: None }
}

#[test]
fn key_map_follows_the_help() {
    assert_eq!(command_for(Key::Char('q'), false), KeyCommand::Quit);
    assert_eq!(command_for(Key::Esc, false), KeyCommand::Quit);
    assert_eq!(command_for(Key::Char('c'), true), KeyCommand::Quit);
    assert_eq!(command_for(Key::Char('c'), false), KeyCommand::Copy);
    assert_eq!(command_for(Key::Char('f'), true), KeyCommand::Search);
    assert_eq!(command_for(Key::Char('r'), true), KeyCommand::Refresh);
    assert_eq!(command_for(Key::Char('r'), false), KeyCommand::Rename);
    assert_eq!(command_for(Key::F(2), false), KeyCommand::Rename);
    assert_eq!(command_for(Key::F(5), false), KeyCommand::Refresh);
    assert_eq!(command_for(Key::PageDown, false), KeyCommand::Move(10));
    assert_eq!(command_for(Key::Char('k'), false), KeyCommand::Move(-1));
    assert_eq!(command_for(Key::Backspace, false), KeyCommand::Parent);
    assert_eq!(command_for(Key::Char('.'), false), KeyCommand::ToggleHidden);
    assert_eq!(command_for(Key::Delete, false), KeyCommand::Delete);
    assert_eq!(command_for(Key::Char('z'), false), KeyCommand::Ignore);
}

#[test]
fn keys_drive_the_browser() {
    let mut app = browser();
    let mut prompt: Option<Prompt> = None;
    assert!(matches!(handle_key(&mut app, &mut prompt, Key::Down, false), Action::Stay));
    assert_eq!(app.selected, 1);
    handle_key(&mut app, &mut prompt, Key::End, false);
    assert_eq!(app.selected, 2);
    match handle_key(&mut app, &mut prompt, Key::Char('o'), false) {
        Action::Open(p) => assert_eq!(p, "/r/b.png"),
        _ => panic!("expected open"),
    }
    handle_key(&mut app, &mut prompt, Key::Char(' '), false);
    assert!(!app.preview);
    handle_key(&mut app, &mut prompt, Key::Char('?'), false);
    assert!(app.help);
    // With the help open only ?, Esc and q do something: they close it.
    assert!(matches!(handle_key(&mut app, &mut prompt, Key::Char('j'), false), Action::Stay));
    assert_eq!(app.selected, 2);
    handle_key(&mut app, &mut prompt, Key::Esc, false);
    assert!(!app.help);
    assert!(matches!(handle_key(&mut app, &mut prompt, Key::Char('x'), false), Action::Cut));
    assert!(matches!(handle_key(&mut app, &mut prompt, Key::Char('~'), false), Action::GoHome));
    assert!(matches!(handle_key(&mut app, &mut prompt, Key::Char('q'), false), Action::Quit));
}

#[test]
fn prompts_collect_names() {
    let mut app = browser();
    let mut prompt: Option<Prompt> = None;
    handle_key(&mut app, &mut prompt, Key::Char('n'), false);
    assert_eq!(prompt.as_ref().unwrap().kind, PromptKind::Folder);
    for c in " new dir ".chars() {
        handle_key(&mut app, &mut prompt, Key::Char(c), false);
    }
    handle_key(&mut app, &mut prompt, Key::Backspace, false);
    handle_key(&mut app, &mut prompt, Key::Char('x'), true);
    assert_eq!(prompt.as_ref().unwrap().value, " new dir");
    match handle_key(&mut app, &mut prompt, Key::Enter, false) {
        Action::CreateDir(name) => assert_eq!(name, "new dir"),
        _ => panic!("expected a folder"),
    }
    assert!(prompt.is_none());

    handle_key(&mut app, &mut prompt, Key::Char('r'), false);
    assert_eq!(prompt.as_ref().unwrap().value, "docs");
    handle_key(&mut app, &mut prompt, Key::Esc, false);
    assert!(prompt.is_none());

    handle_key(&mut app, &mut prompt, Key::Char('d'), false);
    handle_key(&mut app, &mut prompt, Key::Char('Y'), false);
    assert!(matches!(handle_key(&mut app, &mut prompt, Key::Enter, false), Action::Delete));
    handle_key(&mut app, &mut prompt, Key::Char('d'), false);
    handle_key(&mut app, &mut prompt, Key::Char('n'), false);
    assert!(matches!(handle_key(&mut app, &mut prompt, Key::Enter, false), Action::Stay));
    assert_eq!(app.status, "delete cancelled");

    app.filter = "old".into();
    handle_key(&mut app, &mut prompt, Key::Char('/'), false);
    assert_eq!(prompt.as_ref().unwrap().value, "old");
    assert_eq!(prompt.as_ref().unwrap().label(), "filter by name · empty clears");
    match handle_key(&mut app, &mut prompt, Key::Enter, false) {
        Action::SetFilter(f) => assert_eq!(f, "old"),
        _ => panic!("expected a filter"),
    }
}

#[test]
fn mouse_moves_and_selects() {
    let mut app = browser();
    handle_mouse(&mut app, false, Mouse::ScrollDown);
    assert_eq!(app.selected, 2);
    handle_mouse(&mut app, false, Mouse::ScrollUp);
    assert_eq!(app.selected, 0);
    handle_mouse(&mut app, false, Mouse::Press(6));
    assert_eq!(app.selected, 1);
    handle_mouse(&mut app, false, Mouse::Press(40));
    assert_eq!(app.selected, 1);
    handle_mouse(&mut app, true, Mouse::Press(5));
    assert_eq!(app.selected, 1);
}

#[test]
fn editor_choice() {
    assert_eq!(editor_command(Some(" vim ".into()), Some("nano".into())), Some("vim".into()));
    assert_eq!(editor_command(None, Some("nano".into())), Some("nano".into()));
    assert_eq!(editor_command(Some("  ".into()), Some("nano".into())), None);
    assert_eq!(editor_command(None, None), None);
    assert_eq!(editor_script("vim"), "vim \"$1\"");
    let mut app = browser();
    app.note_editing("/r/a.txt", None);
    assert_eq!(app.status, "set $EDITOR to edit files");
    app.note_editing("/r/a.txt", Some(Ok(())));
    assert_eq!(app.status, "editing a.txt");
    app.note_opened("/r/b.png", Err("cannot run xdg-open".into()));
    assert_eq!(app.status, "cannot run xdg-open");
    app.note_refresh(Ok(()));
    assert_eq!(app.status, "refreshed");
}

#[test]
fn small_terminals_get_a_notice() {
    let mut app = browser();
    let frame = layout(&mut app, None, 40, 10, false, &none());
    let texts: Vec<&str> = frame.paints.iter().map(|p| p.text.as_str()).collect();
    assert_eq!(texts, vec!["◆ optionFiles", "terminal too small · resize to 54×12"]);
    assert!(frame.image.is_none());
}

#[test]
fn frames_list_entries_with_sizes() {
    let mut app = browser();
    app.selected = 1;
    let frame = layout(&mut app, None, 80, 24, false, &none());
    let find = |s: &str| frame.paints.iter().find(|p| p.text == s);
    let title = find("◆ optionFiles").unwrap();
    assert_eq!((title.x, title.y, title.bold), (2, 1, true));
    let right = find("local · files").unwrap();
    assert_eq!((right.x, right.y), (65, 1));
    assert!(find("/r").is_some());
    let docs = find("  ▸ docs").unwrap();
    assert_eq!((docs.x, docs.y, docs.tone), (2, 5, Tone::White));
    assert_eq!(find("—").unwrap().x, 77);
    let selected = frame.paints.iter().find(|p| p.tone == Tone::Selected).unwrap();
    assert_eq!(selected.y, 6);
    assert!(selected.text.starts_with("› · a.txt"));
    assert!(selected.text.ends_with("1.5 KB"));
    assert_eq!(selected.text.chars().count(), 76);
    assert!(find("3 items · sort name").is_some());
    assert!(find("↑↓ move   enter open   / search   ~ home   c/x/v clipboard   ? help").is_some());
    assert!(frame.image.is_none());
}

#[test]
fn wide_frames_show_the_preview() {
    let mut app = browser();
    app.selected = 1;
    let info = PreviewInfo { text: Some(vec!["hello".into(), "x  y".into()]), age: Some(120) };
    let frame = layout(&mut app, None, 100, 30, false, &info);
    let find = |s: &str| frame.paints.iter().find(|p| p.text == s);
    let name = find("a.txt").unwrap();
    assert_eq!((name.x, name.y, name.bold), (68, 4, true));
    assert_eq!(find("file").unwrap().y, 6);
    assert_eq!(find("1.5 KB").unwrap().y, 7);
    assert_eq!(find("preview").unwrap().y, 9);
    assert_eq!(find("x  y").unwrap().y, 11);
    assert_eq!(frame.paints.iter().filter(|p| p.tone == Tone::Divider).count(), 22);
    // Without text lines the age and the path show.
    let frame = layout(&mut app, None, 100, 30, false, &PreviewInfo { text: None, age: Some(120) });
    assert!(frame.paints.iter().any(|p| p.text == "2m ago" && p.y == 10));
    assert!(frame.paints.iter().any(|p| p.text == "/r/a.txt" && p.y == 13));
}

#[test]
fn images_are_placed_unless_an_overlay_is_open() {
    let mut app = browser();
    app.selected = 2;
    let mut ui = TerminalUi::enter(KittyPreview::detect(Some("1".into()), false, None, None));
    let frame = ui.draw(&mut app, None, 100, 30, &none());
    let area = frame.image.unwrap();
    assert_eq!((area.path.as_str(), area.x, area.y, area.cols, area.rows), ("/r/b.png", 68, 6, 30, 10));
    assert!(frame.paints.iter().any(|p| p.text == "image · kitty graphics" && p.y == 17));
    let prompt = Prompt { kind: PromptKind::Rename, value: "b.png".into() };
    let frame = ui.draw(&mut app, Some(&prompt), 100, 30, &none());
    assert!(frame.image.is_none());
    assert!(frame.paints.iter().any(|p| p.text == "rename"));
    assert!(frame.paints.iter().any(|p| p.text == "> b.png" && p.bold));
    app.help = true;
    let frame = ui.draw(&mut app, None, 100, 30, &none());
    assert!(frame.image.is_none());
    assert!(frame.paints.iter().any(|p| p.text == "keyboard"));
    assert!(frame.paints.iter().any(|p| p.text == "q / esc     quit / close"));
}

#[test]
fn scrolling_follows_the_selection() {
    let listing: Vec<Entry> = (0..40).map(|i| entry(&format!("f{i:02}"), false, 1)).collect();
    let mut app = App::new("/r".into(), false, Ok(listing), None).unwrap();
    app.selected = 30;
    layout(&mut app, None, 80, 24, false, &none());
    assert_eq!(app.scroll, 17);
    app.selected = 3;
    layout(&mut app, None, 80, 24, false, &none());
    assert_eq!(app.scroll, 3);
}

#[test]
fn footer_states() {
    let mut app = browser();
    app.filter = "a".into();
    app.clipboard = Some(optionfiles::app::Clipboard { path: "/r/a.txt".into(), mode: ClipboardMode::Cut });
    assert_eq!(state_line(&app), "3 items · sort name · filter ‘a’ · cut a.txt");
    assert_eq!(compact_path("/home/user/projects", 10), "/home/use…");
}

#[test]
fn text_previews() {
    assert!(is_text_file("/x/README.MD"));
    assert!(is_text_file("main.rs"));
    assert!(!is_text_file("photo.png"));
    assert!(!is_text_file("Makefile"));
    assert_eq!(
        preview_lines(b"a\tb\r\nsecond\n\nlast\r", 10),
        Some(vec!["a  b".to_string(), "second".into(), "".into(), "last\r".into()])
    );
    assert_eq!(preview_lines(b"one\ntwo\nthree\n", 2), Some(vec!["one".to_string(), "two".into()]));
    assert_eq!(preview_lines(b"one\ntwo", 0), Some(vec!["one".to_string()]));
    assert_eq!(preview_lines(&[0xff, 0xfe], 5), None);
    assert_eq!(preview_lines(b"", 5), Some(vec![]));
}

#[test]
fn ages_are_relative() {
    assert_eq!(relative_time(59), "just now");
    assert_eq!(relative_time(60), "1m ago");
    assert_eq!(relative_time(7200), "2h ago");
    assert_eq!(relative_time(86400 * 3), "3d ago");
}
