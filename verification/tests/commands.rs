use optionfiles::cli::{
    child_prefix, doctor_lines, files_mark, info_lines, list_line, tree_header, tree_line,
    tree_rows, tree_step, Checks, UnixMeta,
};
use optionfiles::fs::{Entry, Timestamp};

fn entry(name: &str, dir: bool, size: u64) -> Entry {
    Entry {
        path: format!("/p/{name}"),
        name: name.to_string(),
        is_dir: dir,
        is_symlink: false,
        size,
        modified: Some(Timestamp { secs: 1786525800, nanos: 0 }),
    }
}

#[test]
fn listing_lines() {
    assert_eq!(list_line(&entry("src", true, 4096)), "d           —  src");
    assert_eq!(list_line(&entry("notes.md", false, 2458)), "·      2.4 KB  notes.md");
    assert_eq!(list_line(&entry("big", false, 123456789012345)), "·    112.3 TB  big");
}

#[test]
fn tree_lines() {
    assert_eq!(files_mark(), "◆");
    assert_eq!(tree_header("◆", "/p"), "◆ /p");
    let entries = vec![entry("src", true, 0), entry("Cargo.toml", false, 10)];
    let rows = tree_rows(&entries, "");
    assert_eq!(rows[0].line, "├─ src/");
    assert_eq!(rows[0].child.as_deref(), Some("│  "));
    assert_eq!(rows[1].line, "└─ Cargo.toml");
    assert!(rows[1].child.is_none());
    assert_eq!(tree_line("│  ", true, &entry("main.rs", false, 1)), "│  └─ main.rs");
    assert_eq!(child_prefix("│  ", true), "│     ");
}

#[test]
fn info_lines_describe_an_entry() {
    let e = entry("notes.md", false, 1536);
    let lines = info_lines(&e, "◆", "/p/notes.md", Some(UnixMeta { mode: 0o100644, uid: 1000, gid: 1000 }));
    assert_eq!(
        lines,
        vec![
            "◆ notes.md",
            "  type      file",
            "  size      1.5 KB",
            "  path      /p/notes.md",
            "  mode      -rw-r--r--",
            "  owner     uid 1000 · gid 1000",
            "  modified  2026-08-12 09:10",
        ]
    );
    let mut d = entry("src", true, 4096);
    d.modified = None;
    assert_eq!(info_lines(&d, "◆", "/p/src", None).len(), 4);
}

#[test]
fn doctor_reports() {
    let c = Checks {
        state_dir: "/home/u/.option/files".into(),
        state_ok: true,
        opener: false,
        clipboard: true,
        trash: false,
        magick: true,
    };
    assert_eq!(
        doctor_lines(&c, true, "◆"),
        vec!["{\"state_dir\":\"/home/u/.option/files\",\"state_ok\":true,\"opener\":false,\"clipboard\":true,\"trash\":false,\"magick\":true}"]
    );
    let lines = doctor_lines(&c, false, "◆");
    assert_eq!(lines[0], "◆ doctor");
    assert_eq!(lines[1], "  state dir: /home/u/.option/files (ok)");
    assert_eq!(lines[2], "  opener (xdg-open/open): missing");
    assert_eq!(lines[3], "  clipboard (wl-copy/xclip/pbcopy): ok (system)");
    assert_eq!(lines[4], "  trash (gio/trash): fallback XDG");
    assert_eq!(lines[5], "  magick (previews não-PNG): ok");
}

#[test]
fn tree_stops_at_the_depth() {
    assert_eq!(tree_step(3, true), Some(2));
    assert_eq!(tree_step(1, true), Some(0));
    assert_eq!(tree_step(0, true), None);
    assert_eq!(tree_step(2, false), None);
}
