//! The command line: its arguments, and the text that `list`, `tree`, `info` and
//! `doctor` print.
use vstd::prelude::*;

use crate::fs::{human_size, Entry};
use crate::text::{push_char, push_str};

verus! {

/// The command line.
pub struct Cli {
    /// Directory to open (shorthand for `open PATH`).
    pub path: Option<String>,
    /// Show hidden files on startup.
    pub all: bool,
    pub command: Option<Command>,
}

/// The subcommands.
pub enum Command {
    /// Open the interactive file manager.
    Open { path: String },
    /// Print entries without opening the interface.
    List { path: String },
    /// Show file or directory information.
    Info { path: String },
    /// Print a directory tree down to `depth` levels (1 to 20).
    Tree { path: String, depth: u8 },
    /// Check the environment; `json` for one machine-readable line.
    Doctor { json: bool },
}

/// The family mark of this program: `option_sdk::App::FILES.mark()`.
#[verifier::external_body]
pub fn files_mark() -> (r: String)
    ensures
        r@ == "◆"@,
{
    option_sdk::App::FILES.mark().to_owned()
}

/// `s` right-aligned in `width` characters (`{:>width}`).
pub open spec fn pad_left(s: Seq<char>, width: nat) -> Seq<char> {
    if s.len() >= width {
        s
    } else {
        Seq::new((width - s.len()) as nat, |i: int| ' ') + s
    }
}

/// What kind of entry this is, in words.
pub open spec fn kind_name(e: Entry) -> Seq<char> {
    if e.is_dir {
        "directory"@
    } else if e.is_symlink {
        "symbolic link"@
    } else {
        "file"@
    }
}

/// The entry kind in words.
pub fn kind_label(e: &Entry) -> (r: &'static str)
    ensures
        r@ == kind_name(*e),
{
    if e.is_dir {
        "directory"
    } else if e.is_symlink {
        "symbolic link"
    } else {
        "file"
    }
}

/// Size column of a listing: a dash for directories.
pub open spec fn size_column(e: Entry) -> Seq<char> {
    if e.is_dir {
        "—"@
    } else {
        crate::fs::human_size_text(e.size as nat)
    }
}

/// One line of `list`: a `d` or `·` marker, the size right-aligned in ten characters,
/// the name.
pub open spec fn list_text(e: Entry) -> Seq<char> {
    (if e.is_dir { "d"@ } else { "·"@ }) + "  "@ + pad_left(size_column(e), 10) + "  "@ + e.name@
}

fn push_padded(out: &mut String, s: &str, width: usize)
    ensures
        final(out)@ == old(out)@ + pad_left(s@, width as nat),
{
    let cs = crate::text::chars_of(s);
    let ghost start = out@;
    if cs.len() < width {
        let mut k: usize = 0;
        while k < width - cs.len()
            invariant
                cs@ == s@,
                cs@.len() < width,
                k <= width - cs@.len(),
                out@ == start + Seq::new(k as nat, |i: int| ' '),
            decreases width - cs.len() - k,
        {
            push_char(out, ' ');
            assert(Seq::new(k as nat, |i: int| ' ').push(' ') =~= Seq::new((k + 1) as nat, |i: int| ' '));
            k += 1;
        }
    }
    push_str(out, s);
    assert(out@ =~= start + pad_left(s@, width as nat));
}

/// One line of the plain listing.
pub fn list_line(e: &Entry) -> (r: String)
    ensures
        r@ == list_text(*e),
{
    let mut out = String::new();
    push_str(&mut out, if e.is_dir { "d" } else { "·" });
    push_str(&mut out, "  ");
    if e.is_dir {
        push_padded(&mut out, "—", 10);
    } else {
        let size = human_size(e.size);
        push_padded(&mut out, size.as_str(), 10);
    }
    push_str(&mut out, "  ");
    push_str(&mut out, e.name.as_str());
    out
}

/// One line of `tree`: the prefix, a branch (`└─` for the last entry, `├─` otherwise),
/// the name, and `/` after a directory.
pub open spec fn tree_text(prefix: Seq<char>, last: bool, e: Entry) -> Seq<char> {
    prefix + (if last { "└─"@ } else { "├─"@ }) + " "@ + e.name@ + (if e.is_dir { "/"@ } else { Seq::empty() })
}

/// The prefix for the children of an entry: two spaces under the last entry, a bar
/// otherwise, then a space.
pub open spec fn child_prefix_text(prefix: Seq<char>, last: bool) -> Seq<char> {
    prefix + (if last { "  "@ } else { "│ "@ }) + " "@
}

/// A line of the tree.
pub fn tree_line(prefix: &str, last: bool, e: &Entry) -> (r: String)
    ensures
        r@ == tree_text(prefix@, last, *e),
{
    let mut out = String::new();
    push_str(&mut out, prefix);
    push_str(&mut out, if last { "└─" } else { "├─" });
    push_str(&mut out, " ");
    push_str(&mut out, e.name.as_str());
    if e.is_dir {
        push_str(&mut out, "/");
    }
    assert(out@ =~= tree_text(prefix@, last, *e));
    out
}

/// The prefix for the children of an entry of the tree.
pub fn child_prefix(prefix: &str, last: bool) -> (r: String)
    ensures
        r@ == child_prefix_text(prefix@, last),
{
    let mut out = String::new();
    push_str(&mut out, prefix);
    push_str(&mut out, if last { "  " } else { "│ " });
    push_str(&mut out, " ");
    out
}

/// One step of the tree below a directory: the line for each entry, and for each
/// directory the prefix its own entries get.
pub struct TreeRow {
    pub line: String,
    pub child: Option<String>,
}

/// The rows for the entries of one directory at `prefix`.
pub fn tree_rows(entries: &Vec<Entry>, prefix: &str) -> (r: Vec<TreeRow>)
    ensures
        r@.len() == entries@.len(),
        forall|i: int| 0 <= i < r@.len() ==> {
            let last = i + 1 == entries@.len();
            &&& (#[trigger] r@[i]).line@ == tree_text(prefix@, last, entries@[i])
            &&& if entries@[i].is_dir {
                r@[i].child matches Some(p) && p@ == child_prefix_text(prefix@, last)
            } else {
                r@[i].child is None
            }
        },
{
    let mut rows: Vec<TreeRow> = Vec::new();
    let n = entries.len();
    let mut i: usize = 0;
    while i < n
        invariant
            n == entries@.len(),
            i <= n,
            rows@.len() == i,
            forall|k: int| 0 <= k < i ==> {
                let last = k + 1 == entries@.len();
                &&& (#[trigger] rows@[k]).line@ == tree_text(prefix@, last, entries@[k])
                &&& if entries@[k].is_dir {
                    rows@[k].child matches Some(p) && p@ == child_prefix_text(prefix@, last)
                } else {
                    rows@[k].child is None
                }
            },
        decreases n - i,
    {
        let last = i + 1 == n;
        let e = &entries[i];
        let line = tree_line(prefix, last, e);
        let child = if e.is_dir { Some(child_prefix(prefix, last)) } else { None };
        rows.push(TreeRow { line, child });
        i += 1;
    }
    rows
}

/// How `tree` goes on at a path with `depth` levels left: nothing is listed once no
/// levels are left or below anything but a directory; otherwise its entries are
/// listed (as `tree_rows` gives them) and their own entries get one level less.
pub fn tree_step(depth: usize, is_dir: bool) -> (r: Option<usize>)
    ensures
        (depth == 0 || !is_dir) <==> r is None,
        r matches Some(d) ==> d == depth - 1,
{
    if depth == 0 || !is_dir {
        None
    } else {
        Some(depth - 1)
    }
}

/// The first line of `tree`: the mark and the root folder.
pub fn tree_header(mark: &str, root: &str) -> (r: String)
    ensures
        r@ == mark@ + " "@ + root@,
{
    let mut out = String::new();
    push_str(&mut out, mark);
    push_str(&mut out, " ");
    push_str(&mut out, root);
    out
}

/// Unix metadata shown by `info` where the system has it.
pub struct UnixMeta {
    pub mode: u32,
    pub uid: u32,
    pub gid: u32,
}

/// The lines of `info`: name, type, size and path; then mode and owner where known;
/// then the modification time where known.
pub open spec fn info_text(e: Entry, mark: Seq<char>, shown_path: Seq<char>, meta: Option<UnixMeta>) -> Seq<Seq<char>> {
    let head = seq![
        mark + " "@ + e.name@,
        "  type      "@ + kind_name(e),
        "  size      "@ + crate::fs::human_size_text(e.size as nat),
        "  path      "@ + shown_path,
    ];
    let with_meta = match meta {
        Some(m) => head + seq![
            "  mode      "@ + seq![crate::gui::kind_char(e.is_dir, e.is_symlink)] + crate::gui::permission_chars(m.mode),
            "  owner     "@ + "uid "@ + crate::text::dec(m.uid as nat) + " · gid "@ + crate::text::dec(m.gid as nat),
        ],
        None => head,
    };
    match e.modified {
        Some(t) => with_meta.push("  modified  "@ + crate::metadata::time_text(t)),
        None => with_meta,
    }
}

fn labeled(label: &str, value: &str) -> (r: String)
    ensures
        r@ == label@ + value@,
{
    let mut out = String::new();
    push_str(&mut out, label);
    push_str(&mut out, value);
    out
}

/// The lines `info` prints for an entry, with the path as shown (resolved when
/// possible) and the Unix metadata where known.
pub fn info_lines(e: &Entry, mark: &str, shown_path: &str, meta: Option<UnixMeta>) -> (r: Vec<String>)
    ensures
        r@.map_values(|s: String| s@) == info_text(*e, mark@, shown_path@, meta),
{
    let mut lines: Vec<String> = Vec::new();
    lines.push(tree_header(mark, e.name.as_str()));
    lines.push(labeled("  type      ", kind_label(e)));
    let size = human_size(e.size);
    lines.push(labeled("  size      ", size.as_str()));
    lines.push(labeled("  path      ", shown_path));
    let ghost head = lines@.map_values(|s: String| s@);
    match &meta {
        Some(m) => {
            let mode = crate::gui::mode_string(e.is_dir, e.is_symlink, m.mode);
            let mode_line = labeled("  mode      ", mode.as_str());
            assert(mode_line@ =~= "  mode      "@ + seq![crate::gui::kind_char(e.is_dir, e.is_symlink)]
                + crate::gui::permission_chars(m.mode));
            lines.push(mode_line);
            let owner = crate::gui::owner_text(m.uid, m.gid);
            let owner_line = labeled("  owner     ", owner.as_str());
            assert(owner_line@ =~= "  owner     "@ + "uid "@ + crate::text::dec(m.uid as nat) + " · gid "@
                + crate::text::dec(m.gid as nat));
            lines.push(owner_line);
        },
        None => {},
    }
    let ghost mid = lines@.map_values(|s: String| s@);
    match e.modified {
        Some(t) => {
            let when = crate::metadata::format_time(t);
            lines.push(labeled("  modified  ", when.as_str()));
        },
        None => {},
    }
    proof {
        let h = seq![
            mark@ + " "@ + e.name@,
            "  type      "@ + kind_name(*e),
            "  size      "@ + crate::fs::human_size_text(e.size as nat),
            "  path      "@ + shown_path@,
        ];
        assert(head =~= h);
        match meta {
            Some(m) => {
                assert(mid =~= h + seq![
                    "  mode      "@ + seq![crate::gui::kind_char(e.is_dir, e.is_symlink)] + crate::gui::permission_chars(m.mode),
                    "  owner     "@ + "uid "@ + crate::text::dec(m.uid as nat) + " · gid "@ + crate::text::dec(m.gid as nat),
                ]);
            },
            None => {
                assert(mid =~= h);
            },
        }
    }
    assert(lines@.map_values(|s: String| s@) =~= info_text(*e, mark@, shown_path@, meta));
    lines
}

/// What `doctor` found: the state directory and whether it exists, and whether an
/// opener, a clipboard helper, a trash helper and ImageMagick are on the `PATH`.
pub struct Checks {
    pub state_dir: String,
    pub state_ok: bool,
    pub opener: bool,
    pub clipboard: bool,
    pub trash: bool,
    pub magick: bool,
}

/// `true` or `false`.
pub open spec fn bool_text(b: bool) -> Seq<char> {
    if b {
        "true"@
    } else {
        "false"@
    }
}

/// The lines `doctor` prints: one JSON object, or a readable report under the mark.
pub open spec fn doctor_text(c: Checks, json: bool, mark: Seq<char>) -> Seq<Seq<char>> {
    if json {
        seq![
            "{\"state_dir\":\""@ + c.state_dir@ + "\",\"state_ok\":"@ + bool_text(c.state_ok) + ",\"opener\":"@
                + bool_text(c.opener) + ",\"clipboard\":"@ + bool_text(c.clipboard) + ",\"trash\":"@ + bool_text(c.trash)
                + ",\"magick\":"@ + bool_text(c.magick) + "}"@,
        ]
    } else {
        seq![
            mark + " doctor"@,
            "  state dir: "@ + c.state_dir@ + " ("@ + (if c.state_ok { "ok"@ } else { "missing"@ }) + ")"@,
            "  opener (xdg-open/open): "@ + (if c.opener { "ok"@ } else { "missing"@ }),
            "  clipboard (wl-copy/xclip/pbcopy): "@ + (if c.clipboard { "ok (system)"@ } else { "fallback interno"@ }),
            "  trash (gio/trash): "@ + (if c.trash { "ok (system)"@ } else { "fallback XDG"@ }),
            "  magick (previews não-PNG): "@ + (if c.magick { "ok"@ } else { "ausente — só PNG nativo"@ }),
        ]
    }
}

fn bool_word(b: bool) -> (r: &'static str)
    ensures
        r@ == bool_text(b),
{
    if b {
        "true"
    } else {
        "false"
    }
}

/// The lines that `doctor` prints for what it found.
pub fn doctor_lines(c: &Checks, json: bool, mark: &str) -> (r: Vec<String>)
    ensures
        r@.map_values(|s: String| s@) == doctor_text(*c, json, mark@),
{
    let mut lines: Vec<String> = Vec::new();
    if json {
        let mut o = String::new();
        push_str(&mut o, "{\"state_dir\":\"");
        push_str(&mut o, c.state_dir.as_str());
        push_str(&mut o, "\",\"state_ok\":");
        push_str(&mut o, bool_word(c.state_ok));
        push_str(&mut o, ",\"opener\":");
        push_str(&mut o, bool_word(c.opener));
        push_str(&mut o, ",\"clipboard\":");
        push_str(&mut o, bool_word(c.clipboard));
        push_str(&mut o, ",\"trash\":");
        push_str(&mut o, bool_word(c.trash));
        push_str(&mut o, ",\"magick\":");
        push_str(&mut o, bool_word(c.magick));
        push_str(&mut o, "}");
        lines.push(o);
        assert(lines@.map_values(|s: String| s@) =~= doctor_text(*c, json, mark@));
        return lines;
    }
    lines.push(labeled(mark, " doctor"));
    let mut d = String::new();
    push_str(&mut d, "  state dir: ");
    push_str(&mut d, c.state_dir.as_str());
    push_str(&mut d, " (");
    push_str(&mut d, if c.state_ok { "ok" } else { "missing" });
    push_str(&mut d, ")");
    lines.push(d);
    lines.push(labeled("  opener (xdg-open/open): ", if c.opener { "ok" } else { "missing" }));
    lines.push(
        labeled("  clipboard (wl-copy/xclip/pbcopy): ", if c.clipboard { "ok (system)" } else { "fallback interno" }),
    );
    lines.push(labeled("  trash (gio/trash): ", if c.trash { "ok (system)" } else { "fallback XDG" }));
    lines.push(labeled("  magick (previews não-PNG): ", if c.magick { "ok" } else { "ausente — só PNG nativo" }));
    assert(lines@.map_values(|s: String| s@) =~= doctor_text(*c, json, mark@));
    lines
}

} // verus!
