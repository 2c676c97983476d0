//! The terminal screen: prompts, and the layout of each frame as a list of texts to
//! paint.
use vstd::prelude::*;

use crate::app::{App, ClipboardMode};
use crate::fs::{human_size, Entry};
use crate::kitty::KittyPreview;
use crate::text::{chars_of, push_char, push_str, truncate};

verus! {

/// What a prompt asks for.
#[derive(Debug, Clone, Copy, PartialEq, Eq, Structural)]
pub enum PromptKind {
    Folder,
    File,
    Rename,
    Delete,
    Search,
}

/// The prompt line: what it asks for and what was typed.
pub struct Prompt {
    pub kind: PromptKind,
    pub value: String,
}

impl Prompt {
    /// The prompt's title.
    pub fn label(&self) -> (r: &'static str)
        ensures
            r@ == match self.kind {
                PromptKind::Folder => "new folder"@,
                PromptKind::File => "new file"@,
                PromptKind::Rename => "rename"@,
                PromptKind::Delete => "delete? type y"@,
                PromptKind::Search => "filter by name · empty clears"@,
            },
    {
        match self.kind {
            PromptKind::Folder => "new folder",
            PromptKind::File => "new file",
            PromptKind::Rename => "rename",
            PromptKind::Delete => "delete? type y",
            PromptKind::Search => "filter by name · empty clears",
        }
    }
}

/// Colours of the monochrome theme.
#[derive(Debug, Clone, Copy, PartialEq, Eq, Structural)]
pub enum Tone {
    /// Near-white titles and the status message.
    Bright,
    /// Plain text.
    White,
    /// Dark grey labels and hints.
    Dim,
    /// Horizontal rules.
    Rule,
    /// The bar between the list and the preview.
    Divider,
    /// The selected row: black on near-white, bold.
    Selected,
    /// The background rows of an overlay box.
    Panel,
}

/// One text to paint at a cell of the screen.
pub struct Paint {
    pub x: u16,
    pub y: u16,
    pub tone: Tone,
    pub bold: bool,
    pub text: String,
}

/// A paint as plain values: column, row, tone, boldness, characters.
pub open spec fn cell(p: Paint) -> (u16, u16, Tone, bool, Seq<char>) {
    (p.x, p.y, p.tone, p.bold, p.text@)
}

/// The paints of a frame as plain values.
pub open spec fn cells(v: Seq<Paint>) -> Seq<(u16, u16, Tone, bool, Seq<char>)> {
    v.map_values(|p: Paint| cell(p))
}

fn paint(out: &mut Vec<Paint>, x: u16, y: u16, tone: Tone, bold: bool, text: String)
    ensures
        cells(final(out)@) == cells(old(out)@).push((x, y, tone, bold, text@)),
{
    let ghost before = cells(out@);
    out.push(Paint { x, y, tone, bold, text });
    assert(cells(out@) =~= before.push((x, y, tone, bold, out@.last().text@)));
}

/// `a - b`, or 0 below zero (`u16::saturating_sub`).
pub open spec fn sat(a: int, b: int) -> int {
    if a > b { a - b } else { 0 }
}

/// A text right-aligned to end at column `right` (its length taken as a `u16`).
pub open spec fn right_cell(right: int, y: u16, tone: Tone, text: Seq<char>) -> (u16, u16, Tone, bool, Seq<char>) {
    (sat(right, (text.len() as int) % 0x10000) as u16, y, tone, false, text)
}

fn paint_right(out: &mut Vec<Paint>, right: u16, y: u16, tone: Tone, text: String)
    ensures
        cells(final(out)@) == cells(old(out)@).push(right_cell(right as int, y, tone, text@)),
{
    let n = chars_of(text.as_str()).len();
    let n16: u16 = (n % 0x10000) as u16;
    let x: u16 = if right > n16 { right - n16 } else { 0 };
    paint(out, x, y, tone, false, text);
}

fn owned(s: &str) -> (r: String)
    ensures
        r@ == s@,
{
    s.to_owned()
}

/// `n` copies of `c`.
pub open spec fn repeated(c: char, n: nat) -> Seq<char> {
    Seq::new(n, |i: int| c)
}

fn repeat_char(c: char, n: u16) -> (r: String)
    ensures
        r@ == repeated(c, n as nat),
{
    let mut out = String::new();
    let mut i: u16 = 0;
    while i < n
        invariant
            i <= n,
            out@ == repeated(c, i as nat),
        decreases n - i,
    {
        push_char(&mut out, c);
        assert(repeated(c, i as nat).push(c) =~= repeated(c, (i + 1) as nat));
        i += 1;
    }
    out
}

/// A path shortened to at most `max` characters, an ellipsis marking the cut.
pub fn compact_path(path: &str, max: usize) -> (r: String)
    ensures
        r@ == crate::text::truncated(path@, max as nat),
{
    truncate(path, max)
}

/// Layout of a frame: whether the preview column shows, the list width, the number of
/// list rows.
pub open spec fn preview_width(a: App, w: int) -> int {
    if a.preview && w >= 92 { 30int } else { 0int }
}

/// Width of the list column.
pub open spec fn list_width(a: App, w: int) -> int {
    let pw = preview_width(a, w);
    sat(w, 4 + pw + if pw > 0 { 3int } else { 0int })
}

/// The first listed row after scrolling so that the selection is visible.
pub open spec fn scrolled(selected: int, scroll: int, rows: int) -> int {
    let s1 = if selected < scroll { selected } else { scroll };
    if selected >= s1 + rows { selected + 1 - rows } else { s1 }
}

/// The paints of the header: title, location, rule and column titles.
pub open spec fn header_cells(a: App, w: int) -> Seq<(u16, u16, Tone, bool, Seq<char>)> {
    let lw = list_width(a, w);
    seq![
        (2u16, 1u16, Tone::Bright, true, "◆ optionFiles"@),
        right_cell(w - 2, 1u16, Tone::Dim, "local · files"@),
        (2u16, 2u16, Tone::Dim, false, "location"@),
        (12u16, 2u16, Tone::White, false, crate::text::truncated(a.cwd@, sat(w, 15) as nat)),
        (2u16, 3u16, Tone::Rule, false, repeated('─', (w - 4) as nat)),
        (6u16, 4u16, Tone::Dim, false, "NAME"@),
        right_cell(2 + lw, 4u16, Tone::Dim, "SIZE"@),
    ] + if a.entries@.len() == 0 {
        seq![(4u16, 6u16, Tone::Dim, false, "This folder is empty"@)]
    } else {
        Seq::empty()
    }
}

fn push_header(out: &mut Vec<Paint>, a: &App, w: u16)
    requires
        w >= 54,
    ensures
        cells(final(out)@) == cells(old(out)@) + header_cells(*a, w as int),
{
    proof {
        reveal_strlit("◆ optionFiles");
        reveal_strlit("local · files");
        reveal_strlit("SIZE");
    }
    let ghost before = cells(out@);
    let pw: u16 = if a.preview && w >= 92 { 30 } else { 0 };
    let lw: u16 = w - (4 + pw + if pw > 0 { 3 } else { 0 });
    paint(out, 2, 1, Tone::Bright, true, owned("◆ optionFiles"));
    paint_right(out, w - 2, 1, Tone::Dim, owned("local · files"));
    paint(out, 2, 2, Tone::Dim, false, owned("location"));
    paint(out, 12, 2, Tone::White, false, compact_path(a.cwd.as_str(), (w - 15) as usize));
    paint(out, 2, 3, Tone::Rule, false, repeat_char('─', w - 4));
    paint(out, 6, 4, Tone::Dim, false, owned("NAME"));
    paint_right(out, 2 + lw, 4, Tone::Dim, owned("SIZE"));
    if a.entries.len() == 0 {
        paint(out, 4, 6, Tone::Dim, false, owned("This folder is empty"));
    }
    assert(cells(out@) =~= before + header_cells(*a, w as int));
}

/// The label of a listed entry: selection marker, kind icon, name cut to the column.
pub open spec fn row_label(a: App, idx: int, lw: int) -> Seq<char> {
    let e = a.entries@[idx];
    (if idx == a.selected { "›"@ } else { " "@ }) + " "@ + (if e.is_dir {
        "▸"@
    } else if e.is_symlink {
        "↗"@
    } else {
        "·"@
    }) + " "@ + crate::text::truncated(e.name@, sat(lw, 17) as nat)
}

/// The paints of one listed entry on screen row `y`: the selected one as a single
/// inverted bar with its size at the right edge, the others as label and right-aligned
/// size.
pub open spec fn row_cells(a: App, idx: int, y: u16, lw: int) -> Seq<(u16, u16, Tone, bool, Seq<char>)> {
    let label = row_label(a, idx, lw);
    let meta = crate::cli::size_column(a.entries@[idx]);
    if idx == a.selected {
        let shown = crate::text::truncated(label, sat(lw, meta.len() + 2int) as nat);
        let gap = sat(sat(lw, shown.len() as int), meta.len() as int);
        seq![(2u16, y, Tone::Selected, true, shown + repeated(' ', gap as nat) + meta)]
    } else {
        seq![(2u16, y, Tone::White, false, label), right_cell(2 + lw, y, Tone::Dim, meta)]
    }
}

/// The paints of the listed entries from screen row `s` on.
pub open spec fn rows_from(a: App, scroll: int, rows: int, lw: int, s: int) -> Seq<(u16, u16, Tone, bool, Seq<char>)>
    decreases rows - s,
{
    if s < 0 || s >= rows || scroll + s >= a.entries@.len() {
        Seq::empty()
    } else {
        row_cells(a, scroll + s, (5 + s) as u16, lw) + rows_from(a, scroll, rows, lw, s + 1)
    }
}

fn size_text(e: &Entry) -> (r: String)
    ensures
        r@ == crate::cli::size_column(*e),
{
    if e.is_dir {
        owned("—")
    } else {
        human_size(e.size)
    }
}

fn push_row(out: &mut Vec<Paint>, a: &App, idx: usize, y: u16, lw: u16)
    requires
        idx < a.entries@.len(),
        lw + 2 <= 0xffff,
    ensures
        cells(final(out)@) == cells(old(out)@) + row_cells(*a, idx as int, y, lw as int),
{
    let ghost before = cells(out@);
    let e = &a.entries[idx];
    let mut label = String::new();
    push_str(&mut label, if idx == a.selected { "›" } else { " " });
    push_str(&mut label, " ");
    push_str(&mut label, if e.is_dir { "▸" } else if e.is_symlink { "↗" } else { "·" });
    push_str(&mut label, " ");
    let name = truncate(e.name.as_str(), if lw > 17 { (lw - 17) as usize } else { 0 });
    push_str(&mut label, name.as_str());
    assert(label@ =~= row_label(*a, idx as int, lw as int));
    let meta = size_text(e);
    let meta_len = chars_of(meta.as_str()).len();
    if idx == a.selected {
        let room: usize = if (lw as usize) >= 2 && (lw as usize) - 2 > meta_len { lw as usize - 2 - meta_len } else { 0 };
        let shown = truncate(label.as_str(), room);
        let shown_len = chars_of(shown.as_str()).len();
        let left: usize = if lw as usize > shown_len { lw as usize - shown_len } else { 0 };
        let gap: usize = if left > meta_len { left - meta_len } else { 0 };
        let mut text = String::new();
        push_str(&mut text, shown.as_str());
        let mut k: usize = 0;
        while k < gap
            invariant
                k <= gap,
                text@ == shown@ + repeated(' ', k as nat),
            decreases gap - k,
        {
            push_char(&mut text, ' ');
            assert(shown@ + repeated(' ', k as nat) + seq![' '] =~= shown@ + repeated(' ', (k + 1) as nat));
            k += 1;
        }
        push_str(&mut text, meta.as_str());
        paint(out, 2, y, Tone::Selected, true, text);
    } else {
        paint(out, 2, y, Tone::White, false, label);
        paint_right(out, 2 + lw, y, Tone::Dim, meta);
    }
    assert(cells(out@) =~= before + row_cells(*a, idx as int, y, lw as int));
}

fn push_rows(out: &mut Vec<Paint>, a: &App, scroll: usize, rows: usize, lw: u16)
    requires
        rows < 0x10000 - 5,
        lw + 2 <= 0xffff,
    ensures
        cells(final(out)@) == cells(old(out)@) + rows_from(*a, scroll as int, rows as int, lw as int, 0),
{
    let ghost goal = cells(out@) + rows_from(*a, scroll as int, rows as int, lw as int, 0);
    let mut s: usize = 0;
    assert(cells(out@) + rows_from(*a, scroll as int, rows as int, lw as int, 0) == goal);
    while s < rows && scroll < a.entries.len() && s < a.entries.len() - scroll
        invariant
            s <= rows,
            rows < 0x10000 - 5,
            lw + 2 <= 0xffff,
            cells(out@) + rows_from(*a, scroll as int, rows as int, lw as int, s as int) == goal,
        decreases rows - s,
    {
        let ghost before = cells(out@);
        push_row(out, a, scroll + s, (5 + s) as u16, lw);
        assert(before + rows_from(*a, scroll as int, rows as int, lw as int, s as int) =~= cells(out@) + rows_from(
            *a,
            scroll as int,
            rows as int,
            lw as int,
            s + 1,
        ));
        s += 1;
    }
    assert(rows_from(*a, scroll as int, rows as int, lw as int, s as int) =~= Seq::empty());
    assert(cells(out@) + Seq::<(u16, u16, Tone, bool, Seq<char>)>::empty() =~= cells(out@));
}

/// What the preview column shows of the selection besides its metadata: the first
/// lines of a text file, if it is one, and its age in seconds, when known.
pub struct PreviewInfo {
    pub text: Option<Vec<String>>,
    pub age: Option<u64>,
}

/// Rows of the image area for a terminal `h` rows high.
pub open spec fn image_rows(h: int) -> int {
    let r = sat(h, 17);
    if r < 4 { 4 } else if r > 10 { 10 } else { r }
}

/// The modification age as shown.
pub open spec fn age_text(age: Option<u64>) -> Seq<char> {
    match age {
        Some(s) => crate::metadata::relative_text(s as nat),
        None => "unknown"@,
    }
}

/// The paints of the preview of entry `e` at column `x`.
pub open spec fn preview_cells(e: Entry, x: u16, h: int, image: bool, info: PreviewInfo) -> Seq<(u16, u16, Tone, bool, Seq<char>)> {
    if image {
        let meta_y = 4 + image_rows(h) + 3;
        seq![
            (x, meta_y as u16, Tone::Dim, false, "image · kitty graphics"@),
            (x, (meta_y + 1) as u16, Tone::White, false, crate::fs::human_size_text(e.size as nat)),
        ]
    } else {
        seq![(x, 4u16, Tone::Bright, true, crate::text::truncated(e.name@, 30)), (x, 6u16, Tone::Dim, false, crate::cli::kind_name(e))]
            + (if !e.is_dir {
            seq![(x, 7u16, Tone::White, false, crate::fs::human_size_text(e.size as nat))]
        } else {
            Seq::empty()
        }) + match info.text {
            Some(lines) => seq![(x, 9u16, Tone::Dim, false, "preview"@)] + Seq::new(
                lines@.len(),
                |i: int| (x, (10 + i) as u16, Tone::White, false, crate::text::truncated(lines@[i]@, 30)),
            ),
            None => seq![
                (x, 9u16, Tone::Dim, false, "modified"@),
                (x, 10u16, Tone::White, false, age_text(info.age)),
                (x, 12u16, Tone::Dim, false, "path"@),
                (x, 13u16, Tone::White, false, crate::text::truncated(e.path@, 30)),
            ],
        }
    }
}

fn push_preview(out: &mut Vec<Paint>, e: &Entry, x: u16, h: u16, image: bool, info: &PreviewInfo)
    requires
        h >= 12,
        match info.text {
            Some(lines) => lines@.len() + 10 <= 0xffff,
            None => true,
        },
    ensures
        cells(final(out)@) == cells(old(out)@) + preview_cells(*e, x, h as int, image, *info),
{
    let ghost before = cells(out@);
    if image {
        let r0: u16 = if h > 17 { h - 17 } else { 0 };
        let rows: u16 = if r0 < 4 { 4 } else if r0 > 10 { 10 } else { r0 };
        let meta_y = 4 + rows + 3;
        paint(out, x, meta_y, Tone::Dim, false, owned("image · kitty graphics"));
        paint(out, x, meta_y + 1, Tone::White, false, human_size(e.size));
        assert(cells(out@) =~= before + preview_cells(*e, x, h as int, image, *info));
        return;
    }
    paint(out, x, 4, Tone::Bright, true, truncate(e.name.as_str(), 30));
    paint(out, x, 6, Tone::Dim, false, owned(crate::cli::kind_label(e)));
    if !e.is_dir {
        paint(out, x, 7, Tone::White, false, human_size(e.size));
    }
    let ghost mid = cells(out@);
    match &info.text {
        Some(lines) => {
            paint(out, x, 9, Tone::Dim, false, owned("preview"));
            let ghost start = cells(out@);
            let mut i: usize = 0;
            while i < lines.len()
                invariant
                    i <= lines@.len(),
                    lines@.len() + 10 <= 0xffff,
                    cells(out@) == start + Seq::new(
                        i as nat,
                        |k: int| (x, (10 + k) as u16, Tone::White, false, crate::text::truncated(lines@[k]@, 30)),
                    ),
                decreases lines.len() - i,
            {
                paint(out, x, (10 + i) as u16, Tone::White, false, truncate(lines[i].as_str(), 30));
                assert(cells(out@) =~= start + Seq::new(
                    (i + 1) as nat,
                    |k: int| (x, (10 + k) as u16, Tone::White, false, crate::text::truncated(lines@[k]@, 30)),
                ));
                i += 1;
            }
        },
        None => {
            paint(out, x, 9, Tone::Dim, false, owned("modified"));
            let age = match info.age {
                Some(s) => crate::metadata::relative_time(s),
                None => owned("unknown"),
            };
            paint(out, x, 10, Tone::White, false, age);
            paint(out, x, 12, Tone::Dim, false, owned("path"));
            paint(out, x, 13, Tone::White, false, truncate(e.path.as_str(), 30));
        },
    }
    assert(cells(out@) =~= before + preview_cells(*e, x, h as int, image, *info));
}

/// The divider bar at column `x` on rows 4 to `h - 5`.
pub open spec fn divider_cells(x: u16, h: int) -> Seq<(u16, u16, Tone, bool, Seq<char>)> {
    Seq::new(sat(h, 8) as nat, |i: int| (x, (4 + i) as u16, Tone::Divider, false, "│"@))
}

fn push_divider(out: &mut Vec<Paint>, x: u16, h: u16)
    requires
        h >= 12,
    ensures
        cells(final(out)@) == cells(old(out)@) + divider_cells(x, h as int),
{
    let ghost start = cells(out@);
    let mut y: u16 = 4;
    while y < h - 4
        invariant
            4 <= y <= h - 4,
            h >= 12,
            cells(out@) == start + Seq::new((y - 4) as nat, |i: int| (x, (4 + i) as u16, Tone::Divider, false, "│"@)),
        decreases h - 4 - y,
    {
        paint(out, x, y, Tone::Divider, false, owned("│"));
        assert(cells(out@) =~= start + Seq::new((y + 1 - 4) as nat, |i: int| (x, (4 + i) as u16, Tone::Divider, false, "│"@)));
        y += 1;
    }
    assert(cells(out@) =~= start + divider_cells(x, h as int));
}

/// The state shown in the footer: item count, sort, filter and clipboard.
pub open spec fn state_text(a: App) -> Seq<char> {
    let n = a.entries@.len();
    crate::text::dec(n) + " item"@ + (if n == 1 { Seq::empty() } else { "s"@ }) + " · sort "@ + match a.sort {
        crate::fs::SortMode::Name => "name"@,
        crate::fs::SortMode::Size => "size"@,
        crate::fs::SortMode::Modified => "date"@,
    } + (if a.filter@.len() == 0 { Seq::empty() } else { " · filter ‘"@ + a.filter@ + "’"@ }) + match a.clipboard {
        Some(c) => " · "@ + (if c.mode == ClipboardMode::Copy { "copy"@ } else { "cut"@ }) + " "@
            + crate::app::shown_file_name(c.path@),
        None => Seq::empty(),
    }
}

/// The key hint line.
pub open spec fn hint_text() -> Seq<char> {
    "↑↓ move   enter open   / search   ~ home   c/x/v clipboard   ? help"@
}

/// The paints of the footer: rule, state, status message and key hint.
pub open spec fn footer_cells(a: App, w: int, h: int) -> Seq<(u16, u16, Tone, bool, Seq<char>)> {
    let sw = (a.status@.len() as int) % 0x10000;
    let state_width = sat(w, sw + 4 + if sw > 0 { 3int } else { 0int });
    seq![
        (2u16, (h - 5) as u16, Tone::Rule, false, repeated('─', (w - 4) as nat)),
        (2u16, (h - 4) as u16, Tone::Dim, false, crate::text::truncated(state_text(a), state_width as nat)),
    ] + (if a.status@.len() > 0 {
        seq![right_cell(w - 2, (h - 4) as u16, Tone::Bright, a.status@)]
    } else {
        Seq::empty()
    }) + seq![(2u16, (h - 2) as u16, Tone::Dim, false, crate::text::truncated(hint_text(), sat(w, 4) as nat))]
}

/// The footer's state text.
pub fn state_line(a: &App) -> (r: String)
    ensures
        r@ == state_text(*a),
{
    proof {
        reveal_strlit(" · ");
    }
    let n = a.entries.len();
    let mut state = String::new();
    crate::text::push_dec(&mut state, n as u64);
    push_str(&mut state, " item");
    if n != 1 {
        push_str(&mut state, "s");
    }
    push_str(&mut state, " · sort ");
    push_str(&mut state, a.sort.label());
    let ghost s1 = state@;
    if !a.filter.as_str().is_empty() {
        push_str(&mut state, " · filter ‘");
        push_str(&mut state, a.filter.as_str());
        push_str(&mut state, "’");
    }
    let ghost s2 = state@;
    match &a.clipboard {
        Some(c) => {
            push_str(&mut state, " · ");
            push_str(&mut state, if c.mode == ClipboardMode::Copy { "copy" } else { "cut" });
            push_str(&mut state, " ");
            match crate::paths::file_name(c.path.as_str()) {
                Some(name) => push_str(&mut state, name.as_str()),
                None => {},
            }
        },
        None => {},
    }
    assert(state@ =~= state_text(*a));
    state
}

fn push_footer(out: &mut Vec<Paint>, a: &App, w: u16, h: u16)
    requires
        w >= 54,
        h >= 12,
        (a.status@.len() as int) % 0x10000 + 7 <= 0xffff,
    ensures
        cells(final(out)@) == cells(old(out)@) + footer_cells(*a, w as int, h as int),
{
    let ghost before = cells(out@);
    paint(out, 2, h - 5, Tone::Rule, false, repeat_char('─', w - 4));
    let state = state_line(a);
    let sc = chars_of(a.status.as_str()).len();
    let sw: u16 = (sc % 0x10000) as u16;
    let used: u16 = sw + 4 + if sw > 0 { 3 } else { 0 };
    let state_width: u16 = if w > used { w - used } else { 0 };
    paint(out, 2, h - 4, Tone::Dim, false, truncate(state.as_str(), state_width as usize));
    let ghost mid = cells(out@);
    if !a.status.as_str().is_empty() {
        paint_right(out, w - 2, h - 4, Tone::Bright, a.status.clone());
    }
    let ghost mid2 = cells(out@);
    paint(
        out,
        2,
        h - 2,
        Tone::Dim,
        false,
        truncate("↑↓ move   enter open   / search   ~ home   c/x/v clipboard   ? help", (w - 4) as usize),
    );
    assert(cells(out@) =~= before + footer_cells(*a, w as int, h as int));
}

/// Rows of an overlay box: spaces in the panel tone.
pub open spec fn box_cells(x: u16, y: u16, width: u16, height: u16) -> Seq<(u16, u16, Tone, bool, Seq<char>)> {
    Seq::new(height as nat, |r: int| (x, (y + r) as u16, Tone::Panel, false, repeated(' ', width as nat)))
}

fn push_box(out: &mut Vec<Paint>, x: u16, y: u16, width: u16, height: u16)
    requires
        y + height <= 0xffff,
    ensures
        cells(final(out)@) == cells(old(out)@) + box_cells(x, y, width, height),
{
    let ghost start = cells(out@);
    let mut r: u16 = 0;
    while r < height
        invariant
            r <= height,
            y + height <= 0xffff,
            cells(out@) == start + Seq::new(r as nat, |k: int| (x, (y + k) as u16, Tone::Panel, false, repeated(' ', width as nat))),
        decreases height - r,
    {
        paint(out, x, y + r, Tone::Panel, false, repeat_char(' ', width));
        assert(cells(out@) =~= start + Seq::new((r + 1) as nat, |k: int| (x, (y + k) as u16, Tone::Panel, false, repeated(' ', width as nat))));
        r += 1;
    }
}

/// A help row at column `x`, row `y`.
pub open spec fn help_row(x: u16, y: u16, tone: Tone, text: Seq<char>) -> (u16, u16, Tone, bool, Seq<char>) {
    (x, y, tone, false, text)
}

/// The rows of the help overlay's key list, at column `x` from row `y` on.
pub open spec fn help_rows(x: u16, y: u16) -> Seq<(u16, u16, Tone, bool, Seq<char>)> {
    let r = |x: u16, y: int, tone: Tone, t: Seq<char>| help_row(x, y as u16, tone, t);
    seq![
        r(x, y + 3, Tone::White, "enter / →   open"@),
        r(x, y + 4, Tone::White, "← / backspace parent"@),
        r(x, y + 5, Tone::Dim, "g / G       first / last"@),
        r(x, y + 6, Tone::Dim, "a / .       hidden files"@),
        r(x, y + 7, Tone::Dim, "s           cycle sort"@),
        r(x, y + 8, Tone::Dim, "space       preview"@),
        r(x, y + 9, Tone::Dim, "/ / ctrl+f  search / filter"@),
        r(x, y + 10, Tone::Dim, "~ / -       home / previous"@),
        r(x, y + 11, Tone::Dim, "c / x / v   copy / cut / paste"@),
        r(x, y + 12, Tone::Dim, "n / N       new folder / file"@),
        r(x, y + 13, Tone::Dim, "r / F2      rename"@),
        r(x, y + 14, Tone::Dim, "d / del     delete (confirm)"@),
        r(x, y + 15, Tone::Dim, "F5 / ctrl+r refresh"@),
        r(x, y + 16, Tone::Dim, "o           open with system"@),
        r(x, y + 17, Tone::Dim, "q / esc     quit / close"@)
    ]
}

/// The help overlay for a `w`×`h` terminal: a centred box with the key list.
pub open spec fn help_cells(w: int, h: int) -> Seq<(u16, u16, Tone, bool, Seq<char>)> {
    let width = if w - 4 < 48 { w - 4 } else { 48 };
    let height = if h - 2 < 20 { h - 2 } else { 20 };
    let x = ((w - width) / 2) as u16;
    let y = ((h - height) / 2) as u16;
    box_cells(x, y, width as u16, height as u16) + seq![((x + 2) as u16, (y + 1) as u16, Tone::Bright, true, "keyboard"@)]
        + help_rows((x + 2) as u16, y) + seq![((x + 2) as u16, (y + height - 2) as u16, Tone::Dim, false, "? close"@)]
}

fn push_help(out: &mut Vec<Paint>, w: u16, h: u16)
    requires
        w >= 54,
        h >= 12,
    ensures
        cells(final(out)@) == cells(old(out)@) + help_cells(w as int, h as int),
{
    let ghost before = cells(out@);
    let width: u16 = if w - 4 < 48 { w - 4 } else { 48 };
    let height: u16 = if h - 2 < 20 { h - 2 } else { 20 };
    let x: u16 = (w - width) / 2;
    let y: u16 = (h - height) / 2;
    push_box(out, x, y, width, height);
    paint(out, x + 2, y + 1, Tone::Bright, true, owned("keyboard"));
    let ghost mid = cells(out@);
    push_help_rows(out, x + 2, y);
    paint(out, x + 2, y + height - 2, Tone::Dim, false, owned("? close"));
    assert(cells(out@) =~= before + help_cells(w as int, h as int));
}

fn push_help_rows(out: &mut Vec<Paint>, x: u16, y: u16)
    requires
        y <= 0xffff - 20,
    ensures
        cells(final(out)@) == cells(old(out)@) + help_rows(x, y),
{
    let ghost before = cells(out@);
    paint(out, x, y + 3, Tone::White, false, owned("enter / →   open"));
    paint(out, x, y + 4, Tone::White, false, owned("← / backspace parent"));
    paint(out, x, y + 5, Tone::Dim, false, owned("g / G       first / last"));
    paint(out, x, y + 6, Tone::Dim, false, owned("a / .       hidden files"));
    paint(out, x, y + 7, Tone::Dim, false, owned("s           cycle sort"));
    paint(out, x, y + 8, Tone::Dim, false, owned("space       preview"));
    paint(out, x, y + 9, Tone::Dim, false, owned("/ / ctrl+f  search / filter"));
    paint(out, x, y + 10, Tone::Dim, false, owned("~ / -       home / previous"));
    paint(out, x, y + 11, Tone::Dim, false, owned("c / x / v   copy / cut / paste"));
    paint(out, x, y + 12, Tone::Dim, false, owned("n / N       new folder / file"));
    paint(out, x, y + 13, Tone::Dim, false, owned("r / F2      rename"));
    paint(out, x, y + 14, Tone::Dim, false, owned("d / del     delete (confirm)"));
    paint(out, x, y + 15, Tone::Dim, false, owned("F5 / ctrl+r refresh"));
    paint(out, x, y + 16, Tone::Dim, false, owned("o           open with system"));
    paint(out, x, y + 17, Tone::Dim, false, owned("q / esc     quit / close"));
    assert(cells(out@) =~= before + help_rows(x, y));
}

/// The prompt overlay: a centred box with the prompt's title, the typed value and a hint.
pub open spec fn prompt_cells(w: int, h: int, p: Prompt) -> Seq<(u16, u16, Tone, bool, Seq<char>)> {
    let width = if w - 4 < 52 { w - 4 } else { 52 };
    let x = ((w - width) / 2) as u16;
    let y = (h / 2 - 3) as u16;
    box_cells(x, y, width as u16, 7) + seq![
        ((x + 2) as u16, (y + 1) as u16, Tone::Dim, false, prompt_title(p.kind)),
        ((x + 2) as u16, (y + 3) as u16, Tone::Bright, true, "> "@ + crate::text::truncated(p.value@, sat(width, 6) as nat)),
        ((x + 2) as u16, (y + 5) as u16, Tone::Dim, false, "enter confirm · esc cancel"@),
    ]
}

/// A prompt's title.
pub open spec fn prompt_title(k: PromptKind) -> Seq<char> {
    match k {
        PromptKind::Folder => "new folder"@,
        PromptKind::File => "new file"@,
        PromptKind::Rename => "rename"@,
        PromptKind::Delete => "delete? type y"@,
        PromptKind::Search => "filter by name · empty clears"@,
    }
}

fn push_prompt(out: &mut Vec<Paint>, w: u16, h: u16, p: &Prompt)
    requires
        w >= 54,
        h >= 12,
    ensures
        cells(final(out)@) == cells(old(out)@) + prompt_cells(w as int, h as int, *p),
{
    let ghost before = cells(out@);
    let width: u16 = if w - 4 < 52 { w - 4 } else { 52 };
    let x: u16 = (w - width) / 2;
    let y: u16 = h / 2 - 3;
    push_box(out, x, y, width, 7);
    paint(out, x + 2, y + 1, Tone::Dim, false, owned(p.label()));
    let mut line = String::new();
    push_str(&mut line, "> ");
    let v = truncate(p.value.as_str(), if width > 6 { (width - 6) as usize } else { 0 });
    push_str(&mut line, v.as_str());
    paint(out, x + 2, y + 3, Tone::Bright, true, line);
    paint(out, x + 2, y + 5, Tone::Dim, false, owned("enter confirm · esc cancel"));
    assert(cells(out@) =~= before + prompt_cells(w as int, h as int, *p));
}

/// Where the preview image goes: the image file and its area in cells.
pub struct ImageArea {
    pub path: String,
    pub x: u16,
    pub y: u16,
    pub cols: u16,
    pub rows: u16,
}

/// A frame: the texts to paint, in order, and the image to place (none means any
/// image shown is to be removed).
pub struct Frame {
    pub paints: Vec<Paint>,
    pub image: Option<ImageArea>,
}

/// A frame's image area as plain values.
pub open spec fn area_of(i: Option<ImageArea>) -> Option<(Seq<char>, u16, u16, u16, u16)> {
    match i {
        Some(a) => Some((a.path@, a.x, a.y, a.cols, a.rows)),
        None => None,
    }
}

/// The frame for a terminal too small to use.
pub open spec fn small_cells() -> Seq<(u16, u16, Tone, bool, Seq<char>)> {
    seq![(2u16, 2u16, Tone::Bright, true, "◆ optionFiles"@), (2u16, 4u16, Tone::Dim, false, "terminal too small · resize to 54×12"@)]
}

/// The selected entry, if any.
pub open spec fn current(a: App) -> Option<Entry> {
    if a.selected < a.entries@.len() {
        Some(a.entries@[a.selected as int])
    } else {
        None
    }
}

/// The paints of the preview column (divider and preview of the selection).
pub open spec fn column_cells(a: App, w: int, h: int, graphics: bool, info: PreviewInfo) -> Seq<(u16, u16, Tone, bool, Seq<char>)> {
    let lw = list_width(a, w);
    if preview_width(a, w) > 0 {
        divider_cells((lw + 3) as u16, h) + match current(a) {
            Some(e) => preview_cells(e, (lw + 5) as u16, h, graphics && crate::kitty::previewable(e.path@), info),
            None => Seq::empty(),
        }
    } else {
        Seq::empty()
    }
}

/// The paints of a frame, for the state after scrolling.
pub open spec fn frame_cells(a: App, prompt: Option<Prompt>, w: int, h: int, graphics: bool, info: PreviewInfo) -> Seq<(u16, u16, Tone, bool, Seq<char>)> {
    header_cells(a, w) + rows_from(a, a.scroll as int, h - 10, list_width(a, w), 0) + column_cells(a, w, h, graphics, info)
        + footer_cells(a, w, h) + (if a.help { help_cells(w, h) } else { Seq::empty() }) + match prompt {
        Some(p) => prompt_cells(w, h, p),
        None => Seq::empty(),
    }
}

/// The image of a frame: none under an overlay; else the selection's image when the
/// preview column shows, graphics are on and the file is an image.
pub open spec fn frame_image(a: App, prompt: Option<Prompt>, w: int, h: int, graphics: bool) -> Option<(Seq<char>, u16, u16, u16, u16)> {
    if a.help || prompt is Some || preview_width(a, w) == 0 {
        None
    } else {
        match current(a) {
            Some(e) => if graphics && crate::kitty::previewable(e.path@) {
                Some((e.path@, (list_width(a, w) + 5) as u16, 6u16, 30u16, image_rows(h) as u16))
            } else {
                None
            },
            None => None,
        }
    }
}

/// The image of the preview column, before overlays are considered.
pub open spec fn column_image(a: App, w: int, h: int, graphics: bool) -> Option<(Seq<char>, u16, u16, u16, u16)> {
    if preview_width(a, w) == 0 {
        None
    } else {
        match current(a) {
            Some(e) => if graphics && crate::kitty::previewable(e.path@) {
                Some((e.path@, (list_width(a, w) + 5) as u16, 6u16, 30u16, image_rows(h) as u16))
            } else {
                None
            },
            None => None,
        }
    }
}

fn push_column(out: &mut Vec<Paint>, a: &App, w: u16, h: u16, graphics: bool, info: &PreviewInfo) -> (image: Option<ImageArea>)
    requires
        w >= 54,
        h >= 12,
        match info.text {
            Some(lines) => lines@.len() + 10 <= 0xffff,
            None => true,
        },
    ensures
        cells(final(out)@) == cells(old(out)@) + column_cells(*a, w as int, h as int, graphics, *info),
        area_of(image) == column_image(*a, w as int, h as int, graphics),
{
    let ghost before = cells(out@);
    let pw: u16 = if a.preview && w >= 92 { 30 } else { 0 };
    let lw: u16 = w - (4 + pw + if pw > 0 { 3 } else { 0 });
    let mut image: Option<ImageArea> = None;
    if pw > 0 {
        let x = lw + 5;
        push_divider(out, lw + 3, h);
        if a.selected < a.entries.len() {
            let e = &a.entries[a.selected];
            let shows_image = graphics && KittyPreview::can_preview(e.path.as_str());
            push_preview(out, e, x, h, shows_image, info);
            if shows_image {
                let r0: u16 = if h > 17 { h - 17 } else { 0 };
                let irows: u16 = if r0 < 4 { 4 } else if r0 > 10 { 10 } else { r0 };
                image = Some(ImageArea { path: e.path.clone(), x, y: 6, cols: 30, rows: irows });
            }
        }
    }
    assert(cells(out@) =~= before + column_cells(*a, w as int, h as int, graphics, *info));
    image
}

/// Lays out one frame of the browser for a `w`×`h` terminal, scrolling the list so
/// that the selection shows; `graphics` tells whether images can be placed and `info`
/// holds what the preview shows of the selection.
pub fn layout(app: &mut App, prompt: Option<&Prompt>, w: u16, h: u16, graphics: bool, info: &PreviewInfo) -> (r: Frame)
    requires
        old(app).selected + 0x10000 <= usize::MAX,
        (old(app).status@.len() as int) % 0x10000 + 7 <= 0xffff,
        match info.text {
            Some(lines) => lines@.len() + 10 <= 0xffff,
            None => true,
        },
    ensures
        w < 54 || h < 12 ==> *final(app) == *old(app) && cells(r.paints@) == small_cells() && r.image is None,
        w >= 54 && h >= 12 ==> {
            &&& *final(app) == App {
                scroll: scrolled(old(app).selected as int, old(app).scroll as int, h - 10) as usize,
                ..*old(app)
            }
            &&& cells(r.paints@) == frame_cells(*final(app), match prompt {
                Some(p) => Some(*p),
                None => None,
            }, w as int, h as int, graphics, *info)
            &&& area_of(r.image) == frame_image(*final(app), match prompt {
                Some(p) => Some(*p),
                None => None,
            }, w as int, h as int, graphics)
        },
{
    let mut out: Vec<Paint> = Vec::new();
    if w < 54 || h < 12 {
        paint(&mut out, 2, 2, Tone::Bright, true, owned("◆ optionFiles"));
        paint(&mut out, 2, 4, Tone::Dim, false, owned("terminal too small · resize to 54×12"));
        assert(cells(out@) =~= small_cells());
        return Frame { paints: out, image: None };
    }
    let pw: u16 = if app.preview && w >= 92 { 30 } else { 0 };
    let lw: u16 = w - (4 + pw + if pw > 0 { 3 } else { 0 });
    let rows: usize = (h - 10) as usize;
    if app.selected < app.scroll {
        app.scroll = app.selected;
    }
    if app.selected >= app.scroll + rows {
        app.scroll = app.selected + 1 - rows;
    }
    let ghost a = *app;
    assert(cells(out@) =~= Seq::<(u16, u16, Tone, bool, Seq<char>)>::empty());
    push_header(&mut out, app, w);
    push_rows(&mut out, app, app.scroll, rows, lw);
    let mut image = push_column(&mut out, app, w, h, graphics, info);
    push_footer(&mut out, app, w, h);
    let ghost after_footer = cells(out@);
    if app.help {
        push_help(&mut out, w, h);
    }
    let ghost after_help = cells(out@);
    match prompt {
        Some(p) => push_prompt(&mut out, w, h, p),
        None => {},
    }
    assert(cells(out@) =~= frame_cells(a, match prompt {
        Some(p) => Some(*p),
        None => None,
    }, w as int, h as int, graphics, *info));
    if app.help || prompt.is_some() {
        image = None;
    }
    Frame { paints: out, image }
}

/// Whether an extension names a text or source file the preview reads.
pub open spec fn text_extension(e: Seq<char>) -> bool {
    crate::kitty::eq_ignore_ascii_case(e, "txt"@) || crate::kitty::eq_ignore_ascii_case(e, "md"@) || crate::kitty::eq_ignore_ascii_case(e, "rs"@) || crate::kitty::eq_ignore_ascii_case(e, "toml"@) || crate::kitty::eq_ignore_ascii_case(e, "json"@) || crate::kitty::eq_ignore_ascii_case(e, "yaml"@) || crate::kitty::eq_ignore_ascii_case(e, "yml"@) || crate::kitty::eq_ignore_ascii_case(e, "js"@) || crate::kitty::eq_ignore_ascii_case(e, "ts"@) || crate::kitty::eq_ignore_ascii_case(e, "tsx"@) || crate::kitty::eq_ignore_ascii_case(e, "jsx"@) || crate::kitty::eq_ignore_ascii_case(e, "css"@) || crate::kitty::eq_ignore_ascii_case(e, "html"@) || crate::kitty::eq_ignore_ascii_case(e, "xml"@) || crate::kitty::eq_ignore_ascii_case(e, "sh"@) || crate::kitty::eq_ignore_ascii_case(e, "py"@) || crate::kitty::eq_ignore_ascii_case(e, "go"@) || crate::kitty::eq_ignore_ascii_case(e, "c"@) || crate::kitty::eq_ignore_ascii_case(e, "h"@) || crate::kitty::eq_ignore_ascii_case(e, "cpp"@) || crate::kitty::eq_ignore_ascii_case(e, "hpp"@) || crate::kitty::eq_ignore_ascii_case(e, "java"@) || crate::kitty::eq_ignore_ascii_case(e, "kt"@) || crate::kitty::eq_ignore_ascii_case(e, "lua"@) || crate::kitty::eq_ignore_ascii_case(e, "ini"@) || crate::kitty::eq_ignore_ascii_case(e, "conf"@) || crate::kitty::eq_ignore_ascii_case(e, "log"@)
}

/// Whether the preview reads `path` as text (by its extension, ignoring ASCII case).
pub open spec fn is_text_path(path: Seq<char>) -> bool {
    match crate::paths::path_extension(path) {
        Some(e) => text_extension(e),
        None => false,
    }
}

fn is_text_extension(e: &str) -> (r: bool)
    ensures
        r == text_extension(e@),
{
    crate::kitty::same_ignoring_ascii_case(e, "txt") || crate::kitty::same_ignoring_ascii_case(e, "md") || crate::kitty::same_ignoring_ascii_case(e, "rs") || crate::kitty::same_ignoring_ascii_case(e, "toml") || crate::kitty::same_ignoring_ascii_case(e, "json") || crate::kitty::same_ignoring_ascii_case(e, "yaml") || crate::kitty::same_ignoring_ascii_case(e, "yml") || crate::kitty::same_ignoring_ascii_case(e, "js") || crate::kitty::same_ignoring_ascii_case(e, "ts") || crate::kitty::same_ignoring_ascii_case(e, "tsx") || crate::kitty::same_ignoring_ascii_case(e, "jsx") || crate::kitty::same_ignoring_ascii_case(e, "css") || crate::kitty::same_ignoring_ascii_case(e, "html") || crate::kitty::same_ignoring_ascii_case(e, "xml") || crate::kitty::same_ignoring_ascii_case(e, "sh") || crate::kitty::same_ignoring_ascii_case(e, "py") || crate::kitty::same_ignoring_ascii_case(e, "go") || crate::kitty::same_ignoring_ascii_case(e, "c") || crate::kitty::same_ignoring_ascii_case(e, "h") || crate::kitty::same_ignoring_ascii_case(e, "cpp") || crate::kitty::same_ignoring_ascii_case(e, "hpp") || crate::kitty::same_ignoring_ascii_case(e, "java") || crate::kitty::same_ignoring_ascii_case(e, "kt") || crate::kitty::same_ignoring_ascii_case(e, "lua") || crate::kitty::same_ignoring_ascii_case(e, "ini") || crate::kitty::same_ignoring_ascii_case(e, "conf") || crate::kitty::same_ignoring_ascii_case(e, "log")
}

/// Whether the preview reads this file as text.
pub fn is_text_file(path: &str) -> (r: bool)
    ensures
        r == is_text_path(path@),
{
    match crate::paths::extension(path) {
        Some(e) => is_text_extension(e.as_str()),
        None => false,
    }
}

/// The most bytes the preview reads of a file.
pub const PREVIEW_BYTES: usize = 16384;

/// `std::str::from_utf8`: the text when the bytes are valid UTF-8, nothing otherwise.
#[verifier::external_body]
fn utf8_text(bs: &[u8]) -> (r: Option<String>)
    ensures
        r is Some <==> vstd::utf8::valid_utf8(bs@),
        r matches Some(t) ==> t@ == vstd::utf8::decode_utf8(bs@),
{
    std::str::from_utf8(bs).ok().map(|t| t.to_owned())
}

/// The lines of a text (`str::lines`): split at line feeds, a carriage return before a
/// line feed dropped, no empty line after a final line feed.
pub open spec fn text_lines(t: Seq<char>) -> Seq<Seq<char>>
    decreases t.len(),
{
    if t.len() == 0 {
        Seq::empty()
    } else {
        match crate::places::find_char(t, '\n', 0) {
            None => seq![t],
            Some(i) => if 0 <= i < t.len() {
                let line = t.take(i);
                let line = if line.len() > 0 && line.last() == '\r' { line.drop_last() } else { line };
                seq![line] + text_lines(t.skip(i + 1))
            } else {
                seq![t]
            },
        }
    }
}

/// A line with each tab shown as two spaces.
pub open spec fn untabbed(l: Seq<char>) -> Seq<char> {
    crate::text::replaced(l, seq!['\t'], seq![' ', ' '])
}

/// The preview lines of a file's first bytes: nothing unless they are valid UTF-8;
/// else the first `max_lines` lines (at least one) with tabs as two spaces.
pub open spec fn preview_text(bs: Seq<u8>, max_lines: nat) -> Option<Seq<Seq<char>>> {
    if !vstd::utf8::valid_utf8(bs) {
        None
    } else {
        let ls = text_lines(vstd::utf8::decode_utf8(bs));
        let k = if max_lines < 1 { 1 } else { max_lines };
        let shown = if ls.len() <= k { ls } else { ls.take(k as int) };
        Some(shown.map_values(|l: Seq<char>| untabbed(l)))
    }
}

proof fn lemma_find_char_bounds(t: Seq<char>, c: char, i: int)
    requires
        0 <= i,
    ensures
        match crate::places::find_char(t, c, i) {
            Some(j) => i <= j < t.len() && t[j] == c && forall|q: int| i <= q < j ==> t[q] != c,
            None => forall|q: int| i <= q < t.len() ==> t[q] != c,
        },
    decreases t.len() - i,
{
    if i < t.len() && t[i] != c {
        lemma_find_char_bounds(t, c, i + 1);
    }
}

/// The lines the preview shows of a file's first bytes.
pub fn preview_lines(bytes: &[u8], max_lines: usize) -> (r: Option<Vec<String>>)
    ensures
        match r {
            Some(v) => preview_text(bytes@, max_lines as nat) == Some(v@.map_values(|s: String| s@)),
            None => preview_text(bytes@, max_lines as nat) is None,
        },
{
    let text = match utf8_text(bytes) {
        Some(t) => t,
        None => return None,
    };
    let cs = chars_of(text.as_str());
    let ghost t = cs@;
    let k: usize = if max_lines < 1 { 1 } else { max_lines };
    let mut out: Vec<String> = Vec::new();
    let mut start: usize = 0;
    let ghost all = text_lines(t);
    assert(t.skip(0) =~= t);
    assert(all.skip(0) =~= all);
    assert(out@.map_values(|s: String| s@) =~= all.take(0).map_values(|l: Seq<char>| untabbed(l)));
    while start < cs.len() && out.len() < k
        invariant
            start <= cs@.len(),
            cs@ == t,
            out@.len() <= k,
            k >= 1,
            out@.len() <= all.len(),
            out@.map_values(|s: String| s@) == all.take(out@.len() as int).map_values(|l: Seq<char>| untabbed(l)),
            text_lines(t.skip(start as int)) == all.skip(out@.len() as int),
        decreases cs.len() - start,
    {
        let ghost rest = t.skip(start as int);
        let mut end = start;
        while end < cs.len() && cs[end] != '\n'
            invariant
                start <= end <= cs@.len(),
                forall|q: int| start <= q < end ==> cs@[q] != '\n',
            decreases cs.len() - end,
        {
            end += 1;
        }
        proof {
            lemma_find_char_bounds(rest, '\n', 0);
        }
        let mut line_end = end;
        if end < cs.len() && line_end > start && cs[line_end - 1] == '\r' {
            line_end -= 1;
        }
        let line = crate::text::copy_range(&cs, start, line_end);
        let line_s = crate::text::string_of(&line);
        proof {
            reveal_strlit("\t");
        }
        let shown = crate::text::replace_all(line_s.as_str(), "\t", "  ");
        let ghost before = out@.map_values(|s: String| s@);
        out.push(shown);
        proof {
            reveal_strlit("\t");
            reveal_strlit("  ");
            assert("\t"@ =~= seq!['\t']);
            assert("  "@ =~= seq![' ', ' ']);
            assert(shown@ == untabbed(line@));
            let n = before.len() as int;
            if end < cs@.len() {
                assert(rest[(end - start) as int] == '\n');
                assert(forall|q: int| 0 <= q < end - start ==> rest[q] == cs@[start + q]);
                assert(crate::places::find_char(rest, '\n', 0) == Some((end - start) as int));
                assert(rest.take((end - start) as int) =~= t.subrange(start as int, end as int));
                assert(rest.skip((end - start) + 1) =~= t.skip(end + 1));
                let sp = rest.take((end - start) as int);
                if sp.len() > 0 && sp.last() == '\r' {
                    assert(line@ =~= sp.drop_last());
                } else {
                    assert(line@ =~= sp);
                }
                assert(text_lines(rest) == seq![line@] + text_lines(t.skip(end + 1)));
            } else {
                assert(forall|q: int| 0 <= q < end - start ==> rest[q] == cs@[start + q]);
                assert(crate::places::find_char(rest, '\n', 0) is None);
                assert(rest =~= t.subrange(start as int, end as int));
                assert(t.skip(end as int) =~= Seq::<char>::empty());
                assert(text_lines(rest) == seq![line@]);
            }
            assert(all.skip(n).len() >= 1);
            assert(n < all.len());
            assert(all.skip(n)[0] == line@);
            assert(all[n] == line@);
            assert(all.take(n + 1) =~= all.take(n).push(line@));
            assert(all.skip(n + 1) =~= all.skip(n).drop_first());
            assert(out@.map_values(|s: String| s@) =~= before.push(shown@));
            assert(all[n] == line@);
            assert(all.take(n + 1).map_values(|l: Seq<char>| untabbed(l)) =~= all.take(n).map_values(|l: Seq<char>| untabbed(l)).push(untabbed(line@)));
            assert(out@.map_values(|s: String| s@) =~= all.take(n + 1).map_values(|l: Seq<char>| untabbed(l)));
        }
        start = if end < cs.len() { end + 1 } else { end };
    }
    proof {
        if start >= cs@.len() {
            assert(t.skip(start as int) =~= Seq::<char>::empty());
            assert(all.skip(out@.len() as int).len() == 0);
            assert(all.take(out@.len() as int) =~= all);
        }
    }
    Some(out)
}

/// The browser's screen once the terminal is set up: the image preview state.
pub struct TerminalUi {
    pub preview: KittyPreview,
}

impl TerminalUi {
    /// The screen state, with the detected image preview, after the terminal entered
    /// its raw, alternate-screen mode.
    pub fn enter(preview: KittyPreview) -> (r: TerminalUi)
        ensures
            r.preview == preview,
    {
        TerminalUi { preview }
    }

    /// Lays out the next frame (see `layout`), with images where the terminal shows them.
    pub fn draw(&mut self, app: &mut App, prompt: Option<&Prompt>, w: u16, h: u16, info: &PreviewInfo) -> (r: Frame)
        requires
            old(app).selected + 0x10000 <= usize::MAX,
            (old(app).status@.len() as int) % 0x10000 + 7 <= 0xffff,
            match info.text {
                Some(lines) => lines@.len() + 10 <= 0xffff,
                None => true,
            },
        ensures
            final(self).preview == old(self).preview,
            w < 54 || h < 12 ==> *final(app) == *old(app) && cells(r.paints@) == small_cells() && r.image is None,
            w >= 54 && h >= 12 ==> {
                &&& *final(app) == App {
                    scroll: scrolled(old(app).selected as int, old(app).scroll as int, h - 10) as usize,
                    ..*old(app)
                }
                &&& cells(r.paints@) == frame_cells(*final(app), match prompt {
                    Some(p) => Some(*p),
                    None => None,
                }, w as int, h as int, old(self).preview.is_supported(), *info)
                &&& area_of(r.image) == frame_image(*final(app), match prompt {
                    Some(p) => Some(*p),
                    None => None,
                }, w as int, h as int, old(self).preview.is_supported())
            },
    {
        let graphics = self.preview.supported();
        layout(app, prompt, w, h, graphics, info)
    }
}

} // verus!
