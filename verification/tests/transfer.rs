use optionfiles::metadata::chrono_ish_timestamp;
use optionfiles::trash::{trash_files_dir, trash_info_dir, trash_info_name, trash_info_text};
use optionfiles::uri::{clipboard_text_path, hex, path_uri, percent_decode, percent_encode};

#[test]
fn uris_escape_and_decode() {
    assert_eq!(path_uri("/home/u/My Docs/ç.txt"), "file:///home/u/My%20Docs/%C3%A7.txt");
    assert_eq!(percent_encode(b"a-b_c.d~e/f"), "a-b_c.d~e/f");
    assert_eq!(percent_decode("a%20b%zz%4"), "a b%zz%4");
    assert_eq!(percent_decode("%C3%A7"), "ç");
    assert_eq!(percent_decode("%FF"), "\u{FFFD}");
    assert_eq!(hex(b'f'), Some(15));
    assert_eq!(hex(b'G'), None);
    for s in ["/tmp/x y", "/ünï/cödé", "%41", "\n\t"] {
        assert_eq!(percent_decode(&percent_encode(s.as_bytes())), s);
    }
}

#[test]
fn clipboard_text_names_paths() {
    assert_eq!(clipboard_text_path(b"  file:///tmp/a%20b\r\n"), Some("/tmp/a b".to_string()));
    assert_eq!(clipboard_text_path(b"\0/tmp/plain\0"), Some("/tmp/plain".to_string()));
    assert_eq!(clipboard_text_path(b" \n "), None);
    assert_eq!(clipboard_text_path(b"\0\0"), None);
    assert_eq!(clipboard_text_path(b"FILE:///x"), Some("FILE:///x".to_string()));
}

#[test]
fn clipboard_reads_back_exported_paths() {
    for p in ["/home/u/My Docs/ç.txt", "/tmp/line\nbreak ", "/", "", "/tab\there\0"] {
        let uri = path_uri(p);
        assert_eq!(clipboard_text_path(uri.as_bytes()), Some(p.to_string()));
    }
}

#[test]
fn trash_locations_and_sidecars() {
    assert_eq!(trash_files_dir(Some("/data".into()), "/home/u"), "/data/Trash/files");
    assert_eq!(trash_files_dir(Some(String::new()), "/home/u"), "/home/u/.local/share/Trash/files");
    assert_eq!(trash_info_dir(None, "/home/u"), "/home/u/.local/share/Trash/info");
    assert_eq!(trash_info_name("a.trashinfo.txt"), "a.txt.trashinfo");
    assert_eq!(
        trash_info_text("/tmp/a\nb", "2026-08-12T14:30:00"),
        "[Trash Info]\nPath=/tmp/a%0Ab\nDeletionDate=2026-08-12T14:30:00\n"
    );
    assert_eq!(chrono_ish_timestamp(1786525800), "2026-08-12T09:10:00");
    assert_eq!(chrono_ish_timestamp(-5), "1970-01-01T00:00:00");
}
