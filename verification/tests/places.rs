use optionfiles::places::{
    ancestors, display_name, favorites_file, is_dotfile, load_favorites, parse_string_array,
    render_string_array, resolve_xdg, short_name, special_folder_icon, symlink_emblem,
    LocalizedFolders, XdgDirs,
};
use optionfiles::fs::Entry;

#[test]
fn round_trips_paths_with_spaces() {
    let paths = vec![
        String::from("/home/user/My Documents"),
        String::from("/tmp/we\"ird\\name"),
    ];
    let text = render_string_array("paths", &paths);
    assert_eq!(parse_string_array(&text, "paths"), paths.clone());
}

#[test]
fn missing_file_reads_empty() {
    // A missing favorites file is read as empty text.
    assert!(load_favorites("").is_empty());
}

#[test]
fn renders_one_value_per_line() {
    let text = render_string_array("paths", &vec!["a\tb\nc".to_string(), "x".to_string()]);
    assert_eq!(text, "paths = [\n  \"a\\tb\\nc\",\n  \"x\",\n]\n");
    assert_eq!(render_string_array("paths", &vec![]), "paths = [\n]\n");
}

#[test]
fn parses_around_unexpected_content() {
    let text = "# favorites\npaths = [\n  \"/a\", \"/b\"\n  garbage here\n  \"/c\\\"q\"\n]\nother = [\"/z\"]\n";
    assert_eq!(parse_string_array(text, "paths"), vec!["/a", "/b", "/c\"q"]);
    assert_eq!(parse_string_array(text, "missing"), Vec::<String>::new());
    assert_eq!(parse_string_array("paths = [ \"open", "paths"), Vec::<String>::new());
    assert_eq!(parse_string_array("paths = [\"a\", \"b", "paths"), Vec::<String>::new());
    assert_eq!(parse_string_array("paths = [\"a\", \"b\\", "paths"), Vec::<String>::new());
    assert_eq!(load_favorites("paths = [\"/a\", \"/b]\n"), Vec::<String>::new());
    assert_eq!(parse_string_array("paths = \"x\"", "paths"), Vec::<String>::new());
    assert_eq!(load_favorites("paths = [\"/home/u/Music\"]"), vec!["/home/u/Music"]);
}

#[test]
fn places_names_and_icons() {
    assert_eq!(display_name("/home/u", "/home/u"), "Pasta pessoal");
    assert_eq!(display_name("/home/u/Music", "/home/u"), "Music");
    assert_eq!(display_name("/", "/home/u"), "/");
    assert_eq!(short_name("/tmp/x"), "x");
    assert_eq!(special_folder_icon("/home/u", "/home/u"), "user-home");
    assert_eq!(special_folder_icon("/home/u/Downloads", "/home/u"), "folder-download");
    assert_eq!(special_folder_icon("/home/u/Other", "/home/u"), "folder");
    assert_eq!(symlink_emblem(), "emblem-symbolic-link");
    assert_eq!(favorites_file("/home/u/.option/files"), "/home/u/.option/files/favorites.toml");
    let e = Entry { path: "/x/.rc".into(), name: ".rc".into(), is_dir: false, is_symlink: false, size: 0, modified: None };
    assert!(is_dotfile(&e));
}

#[test]
fn user_folders_prefer_localized_names() {
    let x = XdgDirs::fallback("/home/u");
    assert_eq!(x.documents, "/home/u/Documents");
    assert_eq!(x.projects, "/home/u/Projects");
    let found = LocalizedFolders { documentos: true, imagens: false, videos: true, musicas: false };
    let r = resolve_xdg("/home/u", &found);
    assert_eq!(r.documents, "/home/u/Documentos");
    assert_eq!(r.pictures, "/home/u/Pictures");
    assert_eq!(r.videos, "/home/u/Vídeos");
    assert_eq!(r.music, "/home/u/Music");
    assert_eq!(r.desktop, "/home/u/Desktop");
}

#[test]
fn ancestors_run_to_the_root() {
    assert_eq!(ancestors("/a/b"), vec!["/a/b", "/a", "/"]);
    let deep = "/x".repeat(100);
    assert_eq!(ancestors(&deep).len(), 65);
}
