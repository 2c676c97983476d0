//! Trash locations and sidecar files, and `file://` URIs for the system clipboard.
use vstd::prelude::*;

use crate::text::{chars_of, push_char, push_str, replace_all, string_of};

verus! {

/// The trash data directory: `XDG_DATA_HOME` when set and non-empty, else
/// `~/.local/share`.
pub open spec fn trash_data(xdg_data_home: Option<Seq<char>>, home: Seq<char>) -> Seq<char> {
    match xdg_data_home {
        Some(x) => if x.len() > 0 { x } else { crate::paths::path_join(home, ".local/share"@) },
        None => crate::paths::path_join(home, ".local/share"@),
    }
}

/// The trash data directory for the given `XDG_DATA_HOME` value and home directory.
pub fn trash_data_dir(xdg_data_home: Option<String>, home: &str) -> (r: String)
    ensures
        r@ == trash_data(crate::paths::opt_chars(xdg_data_home), home@),
{
    match xdg_data_home {
        Some(x) => if !x.as_str().is_empty() {
            x
        } else {
            crate::paths::join(home, ".local/share")
        },
        None => crate::paths::join(home, ".local/share"),
    }
}

/// `Trash/files` under the trash data directory: where trashed entries go.
pub fn trash_files_dir(xdg_data_home: Option<String>, home: &str) -> (r: String)
    ensures
        r@ == crate::paths::path_join(trash_data(crate::paths::opt_chars(xdg_data_home), home@), "Trash/files"@),
{
    let data = trash_data_dir(xdg_data_home, home);
    crate::paths::join(data.as_str(), "Trash/files")
}

/// `Trash/info` under the trash data directory: where the sidecar files go.
pub fn trash_info_dir(xdg_data_home: Option<String>, home: &str) -> (r: String)
    ensures
        r@ == crate::paths::path_join(trash_data(crate::paths::opt_chars(xdg_data_home), home@), "Trash/info"@),
{
    let data = trash_data_dir(xdg_data_home, home);
    crate::paths::join(data.as_str(), "Trash/info")
}

/// File name of the sidecar for a trashed entry: its name without any `.trashinfo`,
/// then `.trashinfo`.
pub fn trash_info_name(trash_name: &str) -> (r: String)
    ensures
        r@ == crate::text::replaced(trash_name@, ".trashinfo"@, Seq::empty()) + ".trashinfo"@,
{
    proof {
        reveal_strlit(".trashinfo");
    }
    let mut r = replace_all(trash_name, ".trashinfo", "");
    proof {
        reveal_strlit("");
        assert(""@ =~= Seq::<char>::empty());
    }
    push_str(&mut r, ".trashinfo");
    r
}

/// Contents of the sidecar: the path the entry was trashed from (newlines written as `%0A`) and the
/// deletion date.
pub open spec fn trash_info_spec(from: Seq<char>, date: Seq<char>) -> Seq<char> {
    "[Trash Info]\nPath="@ + crate::text::replaced(from, "\n"@, "%0A"@) + "\nDeletionDate="@ + date + "\n"@
}

/// The `.trashinfo` sidecar text for an entry trashed from `from` at `date`.
pub fn trash_info_text(from: &str, date: &str) -> (r: String)
    ensures
        r@ == trash_info_spec(from@, date@),
{
    let mut out = String::new();
    push_str(&mut out, "[Trash Info]\nPath=");
    proof {
        reveal_strlit("\n");
    }
    let escaped = replace_all(from, "\n", "%0A");
    push_str(&mut out, escaped.as_str());
    push_str(&mut out, "\nDeletionDate=");
    push_str(&mut out, date);
    push_str(&mut out, "\n");
    out
}

} // verus!
