//! State of the windowed browser around the shared browser state: back/forward
//! history, favorite folders, the status bar, properties text and launch arguments.
use vstd::prelude::*;

use crate::app::{App, ClipboardMode};
use crate::input::Key;
use crate::fs::SortMode;
use crate::paths::same_path;
use crate::text::{push_char, push_dec, push_str, same_str};

verus! {

/// Sort label in the window's status bar.
pub fn sort_label(sort: SortMode) -> (r: &'static str)
    ensures
        r@ == match sort {
            SortMode::Name => "nome"@,
            SortMode::Size => "tamanho"@,
            SortMode::Modified => "data"@,
        },
{
    match sort {
        SortMode::Name => "nome",
        SortMode::Size => "tamanho",
        SortMode::Modified => "data",
    }
}

/// The parts of the status bar, in order: item count, sort order, then the filter,
/// the clipboard and the status message when there are any.
pub open spec fn status_parts(a: App) -> Seq<Seq<char>> {
    let n = a.entries@.len();
    let count = crate::text::dec(n) + " "@ + if n == 1 { "item"@ } else { "itens"@ };
    let order = "ordem "@ + match a.sort {
        SortMode::Name => "nome"@,
        SortMode::Size => "tamanho"@,
        SortMode::Modified => "data"@,
    };
    let with_filter = if a.filter@.len() > 0 {
        seq![count, order, "filtro '"@ + a.filter@ + "'"@]
    } else {
        seq![count, order]
    };
    let with_clip = match a.clipboard {
        Some(c) => with_filter.push(
            match c.mode {
                ClipboardMode::Copy => "copiar"@,
                ClipboardMode::Cut => "recortar"@,
            } + " "@ + crate::app::shown_file_name(c.path@),
        ),
        None => with_filter,
    };
    if a.status@.len() > 0 {
        with_clip.push(a.status@)
    } else {
        with_clip
    }
}

/// Parts joined by ` · `.
pub open spec fn joined(parts: Seq<Seq<char>>) -> Seq<char>
    decreases parts.len(),
{
    if parts.len() == 0 {
        Seq::empty()
    } else if parts.len() == 1 {
        parts[0]
    } else {
        joined(parts.drop_last()) + " · "@ + parts.last()
    }
}

/// The window's status bar for the browser state.
#[verifier::rlimit(40)]
pub fn status_line(a: &App) -> (r: String)
    ensures
        r@ == joined(status_parts(*a)),
{
    proof {
        reveal_strlit(" · ");
    }
    let ghost parts = status_parts(*a);
    let n = a.entries.len();
    let mut out = String::new();
    push_dec(&mut out, n as u64);
    push_str(&mut out, " ");
    if n == 1 {
        push_str(&mut out, "item");
    } else {
        push_str(&mut out, "itens");
    }
    let ghost p0 = out@;
    push_str(&mut out, " · ");
    push_str(&mut out, "ordem ");
    push_str(&mut out, sort_label(a.sort));
    let ghost p1 = out@;
    assert(joined(seq![p0]) == p0);
    if !a.filter.as_str().is_empty() {
        push_str(&mut out, " · ");
        push_str(&mut out, "filtro '");
        push_str(&mut out, a.filter.as_str());
        push_str(&mut out, "'");
    }
    let ghost p2 = out@;
    match &a.clipboard {
        Some(c) => {
            push_str(&mut out, " · ");
            match c.mode {
                ClipboardMode::Copy => push_str(&mut out, "copiar"),
                ClipboardMode::Cut => push_str(&mut out, "recortar"),
            }
            push_str(&mut out, " ");
            match crate::paths::file_name(c.path.as_str()) {
                Some(name) => push_str(&mut out, name.as_str()),
                None => {},
            }
        },
        None => {},
    }
    let ghost p3 = out@;
    if !a.status.as_str().is_empty() {
        push_str(&mut out, " · ");
        push_str(&mut out, a.status.as_str());
    }
    proof {
        let count = crate::text::dec(n as nat) + " "@ + if n == 1 { "item"@ } else { "itens"@ };
        let order = "ordem "@ + match a.sort {
            SortMode::Name => "nome"@,
            SortMode::Size => "tamanho"@,
            SortMode::Modified => "data"@,
        };
        assert(p0 =~= count);
        let base = seq![count, order];
        assert(base.drop_last() =~= seq![count]);
        assert(p1 =~= joined(base));
        let wf = if a.filter@.len() > 0 { base.push("filtro '"@ + a.filter@ + "'"@) } else { base };
        if a.filter@.len() > 0 {
            assert(wf.drop_last() =~= base);
            assert(seq![count, order, "filtro '"@ + a.filter@ + "'"@] =~= wf);
        } else {
            assert(seq![count, order] =~= wf);
        }
        assert(p2 =~= joined(wf));
        let wc = match &a.clipboard {
            Some(c) => wf.push(
                match c.mode {
                    ClipboardMode::Copy => "copiar"@,
                    ClipboardMode::Cut => "recortar"@,
                } + " "@ + crate::app::shown_file_name(c.path@),
            ),
            None => wf,
        };
        if (*a).clipboard is Some {
            assert(wc.drop_last() =~= wf);
        }
        assert(p3 =~= joined(wc));
        if a.status@.len() > 0 {
            assert(wc.push(a.status@).drop_last() =~= wc);
        }
    }
    out
}

/// Back and forward stacks of visited folders, and whether the next folder change is
/// not to be recorded (moves through the history itself).
pub struct History {
    pub back: Vec<String>,
    pub forward: Vec<String>,
    pub skip_record: bool,
}

/// The stacks as sequences of paths.
pub open spec fn paths_of(v: Vec<String>) -> Seq<Seq<char>> {
    v@.map_values(|s: String| s@)
}

impl History {
    /// Empty history.
    pub fn new() -> (r: History)
        ensures
            paths_of(r.back) == Seq::<Seq<char>>::empty(),
            paths_of(r.forward) == Seq::<Seq<char>>::empty(),
            !r.skip_record,
    {
        let h = History { back: Vec::new(), forward: Vec::new(), skip_record: false };
        assert(paths_of(h.back) =~= Seq::<Seq<char>>::empty());
        assert(paths_of(h.forward) =~= Seq::<Seq<char>>::empty());
        h
    }

    /// Before an operation: one that moves through the history itself records nothing.
    pub fn begin(&mut self, record: bool)
        ensures
            final(self).back == old(self).back,
            final(self).forward == old(self).forward,
            final(self).skip_record == (old(self).skip_record || !record),
    {
        if !record {
            self.skip_record = true;
        }
    }

    /// After an operation that went from `old_cwd` (when known): a failed one records
    /// nothing; a folder change is recorded unless skipped, pushing the old folder on the
    /// back stack and clearing the forward stack.
    pub fn finish(&mut self, old_cwd: Option<String>, changed: bool, failed: bool)
        ensures
            failed ==> {
                &&& final(self).back == old(self).back
                &&& final(self).forward == old(self).forward
                &&& !final(self).skip_record
            },
            !failed && !changed ==> {
                &&& final(self).back == old(self).back
                &&& final(self).forward == old(self).forward
                &&& final(self).skip_record == old(self).skip_record
            },
            !failed && changed && old(self).skip_record ==> {
                &&& final(self).back == old(self).back
                &&& final(self).forward == old(self).forward
                &&& !final(self).skip_record
            },
            !failed && changed && !old(self).skip_record ==> {
                &&& paths_of(final(self).back) == match old_cwd {
                    Some(o) => paths_of(old(self).back).push(o@),
                    None => paths_of(old(self).back),
                }
                &&& paths_of(final(self).forward) == Seq::<Seq<char>>::empty()
                &&& !final(self).skip_record
            },
    {
        if failed {
            self.skip_record = false;
            return;
        }
        if !changed {
            return;
        }
        if self.skip_record {
            self.skip_record = false;
        } else {
            let ghost before = paths_of(self.back);
            match old_cwd {
                Some(o) => {
                    self.back.push(o);
                    assert(paths_of(self.back) =~= before.push(o@));
                },
                None => {},
            }
            self.forward = Vec::new();
            assert(paths_of(self.forward) =~= Seq::<Seq<char>>::empty());
        }
    }

    /// Goes back: pops the folder to go to, pushing the current one (when known) on the
    /// forward stack; nothing when the back stack is empty.
    pub fn go_back(&mut self, cwd: Option<String>) -> (target: Option<String>)
        ensures
            final(self).skip_record == old(self).skip_record,
            old(self).back@.len() == 0 ==> target is None && final(self).back == old(self).back
                && final(self).forward == old(self).forward,
            old(self).back@.len() > 0 ==> {
                &&& target matches Some(t) && t@ == paths_of(old(self).back).last()
                &&& paths_of(final(self).back) == paths_of(old(self).back).drop_last()
                &&& paths_of(final(self).forward) == match cwd {
                    Some(c) => paths_of(old(self).forward).push(c@),
                    None => paths_of(old(self).forward),
                }
            },
    {
        let ghost b0 = paths_of(self.back);
        let ghost f0 = paths_of(self.forward);
        if self.back.len() == 0 {
            return None;
        }
        let target = match self.back.pop() {
            Some(t) => t,
            None => return None,
        };
        assert(paths_of(self.back) =~= b0.drop_last());
        match cwd {
            Some(c) => {
                self.forward.push(c);
                assert(paths_of(self.forward) =~= f0.push(c@));
            },
            None => {},
        }
        Some(target)
    }

    /// Goes forward: pops the folder to go to, pushing the current one (when known) on
    /// the back stack; nothing when the forward stack is empty.
    pub fn go_forward(&mut self, cwd: Option<String>) -> (target: Option<String>)
        ensures
            final(self).skip_record == old(self).skip_record,
            old(self).forward@.len() == 0 ==> target is None && final(self).back == old(self).back
                && final(self).forward == old(self).forward,
            old(self).forward@.len() > 0 ==> {
                &&& target matches Some(t) && t@ == paths_of(old(self).forward).last()
                &&& paths_of(final(self).forward) == paths_of(old(self).forward).drop_last()
                &&& paths_of(final(self).back) == match cwd {
                    Some(c) => paths_of(old(self).back).push(c@),
                    None => paths_of(old(self).back),
                }
            },
    {
        let ghost b0 = paths_of(self.back);
        let ghost f0 = paths_of(self.forward);
        if self.forward.len() == 0 {
            return None;
        }
        let target = match self.forward.pop() {
            Some(t) => t,
            None => return None,
        };
        assert(paths_of(self.forward) =~= f0.drop_last());
        match cwd {
            Some(c) => {
                self.back.push(c);
                assert(paths_of(self.back) =~= b0.push(c@));
            },
            None => {},
        }
        Some(target)
    }
}

/// Going back from folder `c` and then forward from the folder reached leaves both
/// stacks as they were and returns to `c`.
pub proof fn lemma_back_then_forward(
    back: Seq<Seq<char>>,
    forward: Seq<Seq<char>>,
    c: Seq<char>,
)
    requires
        back.len() > 0,
    ensures
        ({
            let t = back.last();
            let back1 = back.drop_last();
            let forward1 = forward.push(c);
            &&& forward1.last() == c
            &&& forward1.drop_last() == forward
            &&& back1.push(t) == back
        }),
{
    let t = back.last();
    assert(forward.push(c).drop_last() =~= forward);
    assert(back.drop_last().push(t) =~= back);
}

/// Whether `cwd` is among the favorites (for `Path` equality).
pub open spec fn is_favorite(favs: Seq<Seq<char>>, cwd: Seq<char>) -> bool {
    exists|i: int| 0 <= i < favs.len() && crate::paths::same_folder(#[trigger] favs[i], cwd)
}

/// The favorites without every entry equal to `cwd`.
pub open spec fn without(favs: Seq<Seq<char>>, cwd: Seq<char>) -> Seq<Seq<char>> {
    favs.filter(|p: Seq<char>| !crate::paths::same_folder(p, cwd))
}

/// Whether the current folder is a favorite (the star's state).
pub fn favorite_contains(favs: &Vec<String>, cwd: &str) -> (r: bool)
    ensures
        r == is_favorite(paths_of(*favs), cwd@),
{
    let mut i: usize = 0;
    while i < favs.len()
        invariant
            i <= favs@.len(),
            forall|k: int| 0 <= k < i ==> !crate::paths::same_folder(#[trigger] paths_of(*favs)[k], cwd@),
        decreases favs.len() - i,
    {
        let same = same_path(favs[i].as_str(), cwd);
        if same {
            assert(paths_of(*favs)[i as int] == favs@[i as int]@);
            return true;
        }
        assert(paths_of(*favs)[i as int] == favs@[i as int]@);
        i += 1;
    }
    false
}

/// Adds the current folder to the favorites, or removes it (every entry equal to it)
/// when it is there.
pub fn toggle_favorite(favs: &mut Vec<String>, cwd: &str)
    ensures
        is_favorite(paths_of(*old(favs)), cwd@) ==> paths_of(*final(favs)) == without(paths_of(*old(favs)), cwd@),
        !is_favorite(paths_of(*old(favs)), cwd@) ==> paths_of(*final(favs)) == paths_of(*old(favs)).push(cwd@),
{
    let ghost old_favs = paths_of(*favs);
    if favorite_contains(favs, cwd) {
        let mut kept: Vec<String> = Vec::new();
        let mut i: usize = 0;
        while i < favs.len()
            invariant
                i <= favs@.len(),
                paths_of(*favs) == old_favs,
                paths_of(kept) == without(old_favs.take(i as int), cwd@),
            decreases favs.len() - i,
        {
            let ghost before = paths_of(kept);
            let same = same_path(favs[i].as_str(), cwd);
            assert(old_favs.take(i + 1) =~= old_favs.take(i as int).push(old_favs[i as int]));
            assert(old_favs[i as int] == favs@[i as int]@);
            proof {
                old_favs.take(i as int).lemma_filter_push(old_favs[i as int], |p: Seq<char>| !crate::paths::same_folder(p, cwd@));
            }
            if !same {
                kept.push(favs[i].clone());
                assert(paths_of(kept) =~= before.push(favs@[i as int]@));
            }
            i += 1;
        }
        assert(old_favs.take(old_favs.len() as int) =~= old_favs);
        *favs = kept;
    } else {
        favs.push(cwd.to_owned());
        assert(paths_of(*favs) =~= old_favs.push(cwd@));
    }
}

/// Toggling the current folder twice, when it was not a favorite, leaves the favorites
/// as they were.
pub proof fn lemma_toggle_twice(favs: Seq<Seq<char>>, cwd: Seq<char>)
    requires
        !is_favorite(favs, cwd),
    ensures
        is_favorite(favs.push(cwd), cwd),
        without(favs.push(cwd), cwd) == favs,
{
    let f = |p: Seq<char>| !crate::paths::same_folder(p, cwd);
    assert(crate::paths::same_folder(favs.push(cwd)[favs.len() as int], cwd));
    favs.lemma_filter_push(cwd, f);
    assert forall|i: int| 0 <= i < favs.len() implies f(favs[i]) by {
        if !f(favs[i]) {
            assert(crate::paths::same_folder(favs[i], cwd));
        }
    }
    lemma_filter_all(favs, f);
}

proof fn lemma_filter_all(s: Seq<Seq<char>>, f: spec_fn(Seq<char>) -> bool)
    requires
        forall|i: int| 0 <= i < s.len() ==> f(s[i]),
    ensures
        s.filter(f) == s,
    decreases s.len(),
{
    if s.len() > 0 {
        lemma_filter_all(s.drop_last(), f);
        s.drop_last().lemma_filter_push(s.last(), f);
        assert(s.drop_last().push(s.last()) =~= s);
    } else {
        assert(s.filter(f) =~= s);
    }
}

/// Removes the favorite at `index`, if there is one.
pub fn remove_favorite(favs: &mut Vec<String>, index: usize)
    ensures
        index < old(favs)@.len() ==> final(favs)@ == old(favs)@.remove(index as int),
        index >= old(favs)@.len() ==> final(favs)@ == old(favs)@,
{
    if index < favs.len() {
        favs.remove(index);
    }
}

/// The nine permission characters of a Unix mode: read, write and execute for owner,
/// group and others, `-` where a bit is clear.
pub open spec fn permission_chars(mode: u32) -> Seq<char> {
    let bit = |b: u32, c: char| if mode & b != 0 { c } else { '-' };
    seq![
        bit(0o400, 'r'),
        bit(0o200, 'w'),
        bit(0o100, 'x'),
        bit(0o040, 'r'),
        bit(0o020, 'w'),
        bit(0o010, 'x'),
        bit(0o004, 'r'),
        bit(0o002, 'w'),
        bit(0o001, 'x'),
    ]
}

/// The type character of a listing: `d` for a directory, `l` for a symbolic link,
/// `-` otherwise.
pub open spec fn kind_char(is_dir: bool, is_symlink: bool) -> char {
    if is_dir {
        'd'
    } else if is_symlink {
        'l'
    } else {
        '-'
    }
}

/// The mode column has ten characters: the type, then for owner, group and others in
/// that order `r`, `w`, `x` exactly where the read (`0o400`, `0o040`, `0o004`), write
/// (`0o200`, `0o020`, `0o002`) and execute (`0o100`, `0o010`, `0o001`) bits are set,
/// `-` where they are clear.
pub proof fn lemma_mode_column(is_dir: bool, is_symlink: bool, mode: u32)
    ensures
        ({
            let t = seq![kind_char(is_dir, is_symlink)] + permission_chars(mode);
            &&& t.len() == 10
            &&& t[0] == (if is_dir { 'd' } else if is_symlink { 'l' } else { '-' })
            &&& (t[1] == 'r') == (mode & 0o400 != 0) && (t[1] == 'r' || t[1] == '-')
            &&& (t[2] == 'w') == (mode & 0o200 != 0) && (t[2] == 'w' || t[2] == '-')
            &&& (t[3] == 'x') == (mode & 0o100 != 0) && (t[3] == 'x' || t[3] == '-')
            &&& (t[4] == 'r') == (mode & 0o040 != 0) && (t[4] == 'r' || t[4] == '-')
            &&& (t[5] == 'w') == (mode & 0o020 != 0) && (t[5] == 'w' || t[5] == '-')
            &&& (t[6] == 'x') == (mode & 0o010 != 0) && (t[6] == 'x' || t[6] == '-')
            &&& (t[7] == 'r') == (mode & 0o004 != 0) && (t[7] == 'r' || t[7] == '-')
            &&& (t[8] == 'w') == (mode & 0o002 != 0) && (t[8] == 'w' || t[8] == '-')
            &&& (t[9] == 'x') == (mode & 0o001 != 0) && (t[9] == 'x' || t[9] == '-')
        }),
{
}

/// The mode column, e.g. `-rw-r--r--`.
pub fn mode_string(is_dir: bool, is_symlink: bool, mode: u32) -> (r: String)
    ensures
        r@ == seq![kind_char(is_dir, is_symlink)] + permission_chars(mode),
{
    let mut out = String::new();
    push_char(&mut out, if is_dir { 'd' } else if is_symlink { 'l' } else { '-' });
    push_char(&mut out, if mode & 0o400 != 0 { 'r' } else { '-' });
    push_char(&mut out, if mode & 0o200 != 0 { 'w' } else { '-' });
    push_char(&mut out, if mode & 0o100 != 0 { 'x' } else { '-' });
    push_char(&mut out, if mode & 0o040 != 0 { 'r' } else { '-' });
    push_char(&mut out, if mode & 0o020 != 0 { 'w' } else { '-' });
    push_char(&mut out, if mode & 0o010 != 0 { 'x' } else { '-' });
    push_char(&mut out, if mode & 0o004 != 0 { 'r' } else { '-' });
    push_char(&mut out, if mode & 0o002 != 0 { 'w' } else { '-' });
    push_char(&mut out, if mode & 0o001 != 0 { 'x' } else { '-' });
    assert(out@ =~= seq![kind_char(is_dir, is_symlink)] + permission_chars(mode));
    out
}

/// The owner column, `uid U · gid G`.
pub fn owner_text(uid: u32, gid: u32) -> (r: String)
    ensures
        r@ == "uid "@ + crate::text::dec(uid as nat) + " · gid "@ + crate::text::dec(gid as nat),
{
    let mut out = String::new();
    push_str(&mut out, "uid ");
    push_dec(&mut out, uid as u64);
    push_str(&mut out, " · gid ");
    push_dec(&mut out, gid as u64);
    out
}

/// Columns of the icon grid at a width in pixels: cells are 112 pixels wide, and
/// there is always at least one column.
pub fn grid_columns(width: i32) -> (r: usize)
    ensures
        r as int == (if width < 112 { 112int } else { width as int }) / 112,
        r >= 1,
{
    let w: i32 = if width < 112 { 112 } else { width };
    (w / 112) as usize
}

/// What the window's command line asks for.
pub struct Launch {
    /// The folder to open.
    pub dir: Option<String>,
    /// Hidden files on (`-a`/`--all`).
    pub show_hidden: Option<bool>,
    /// Help was asked for (`-h`/`--help`): print it and stop.
    pub help: bool,
}

/// The launch request for arguments from index `i` on, given what was read before.
pub open spec fn launch_from(args: Seq<Seq<char>>, i: int, dir: Option<Seq<char>>, hidden: Option<bool>) -> (
    Option<Seq<char>>,
    Option<bool>,
    bool,
)
    decreases args.len() - i,
{
    if i < 0 || i >= args.len() {
        (dir, hidden, false)
    } else {
        let a = args[i];
        if a == "-a"@ || a == "--all"@ {
            launch_from(args, i + 1, dir, Some(true))
        } else if a == "-h"@ || a == "--help"@ {
            (dir, hidden, true)
        } else if dir is None {
            launch_from(args, i + 1, Some(a), hidden)
        } else {
            launch_from(args, i + 1, dir, hidden)
        }
    }
}

/// Reads the window's command line (the program name first): `-a`/`--all` turns hidden
/// files on, `-h`/`--help` asks for help at once, the first other argument is the folder.
pub fn parse_args(args: &Vec<String>) -> (r: Launch)
    ensures
        (crate::paths::opt_chars(r.dir), r.show_hidden, r.help) == launch_from(
            paths_of(*args),
            1,
            None,
            None,
        ),
{
    let mut dir: Option<String> = None;
    let mut hidden: Option<bool> = None;
    let mut i: usize = 1;
    while i < args.len()
        invariant
            1 <= i,
            launch_from(paths_of(*args), i as int, crate::paths::opt_chars(dir), hidden) == launch_from(
                paths_of(*args),
                1,
                None,
                None,
            ),
        decreases args.len() - i,
    {
        let a = args[i].as_str();
        assert(paths_of(*args)[i as int] == a@);
        if same_str(a, "-a") || same_str(a, "--all") {
            hidden = Some(true);
        } else if same_str(a, "-h") || same_str(a, "--help") {
            return Launch { dir, show_hidden: hidden, help: true };
        } else if dir.is_none() {
            dir = Some(a.to_owned());
        }
        i += 1;
    }
    Launch { dir, show_hidden: hidden, help: false }
}

impl App {
    /// Navigates to `target` (already resolved) unless it is the current folder: the
    /// current folder becomes the previous location and the target is selected from the
    /// top; `false` when nothing changed. The new listing is given to `refresh` next.
    pub fn navigate(&mut self, target: String) -> (r: bool)
        ensures
            r == !crate::paths::same_folder(target@, old(self).cwd@),
            !r ==> *final(self) == *old(self),
            r ==> {
                &&& final(self).cwd == target
                &&& final(self).previous_dir == Some(old(self).cwd)
                &&& final(self).selected == 0
                &&& final(self).scroll == 0
                &&& final(self).entries == old(self).entries
                &&& final(self).show_hidden == old(self).show_hidden
                &&& final(self).sort == old(self).sort
                &&& final(self).clipboard == old(self).clipboard
                &&& final(self).status == old(self).status
                &&& final(self).help == old(self).help
                &&& final(self).preview == old(self).preview
                &&& final(self).filter == old(self).filter
            },
    {
        if same_path(target.as_str(), self.cwd.as_str()) {
            return false;
        }
        self.previous_dir = Some(self.cwd.clone());
        self.open_dir(target);
        true
    }
}

/// What a key does in the window, besides the accelerators.
#[derive(Debug, Clone, Copy, PartialEq, Eq, Structural)]
pub enum WindowCommand {
    /// Not handled here: the key goes on to the focused widget.
    Pass,
    /// Empty the search box.
    ClearSearch,
    /// Close the empty search box and return to the browser.
    CloseSearch,
    /// Move the selection by this many entries.
    Move(isize),
    /// Go to the parent folder.
    Up,
    /// Open the selection (enter a folder, open a file).
    Activate,
    First,
    Last,
    ToggleHidden,
    CycleSort,
    Copy,
    Cut,
    Paste,
    NewFolder,
    NewFile,
    Rename,
    Delete,
    Edit,
    Open,
    Close,
    Shortcuts,
    Search,
}

/// How far `j`/`k` move: one grid row (the column count, at least 1) in the icon view,
/// one entry in the details view.
pub open spec fn step_of(icons: bool, columns: int) -> int {
    if icons {
        if columns < 1 { 1 } else { columns }
    } else {
        1
    }
}

/// The window's own key map: keys with Control, Alt or Super go on; Esc empties, then
/// closes, the search box; other keys typed in the search box go on; the letters and
/// page keys browse.
pub open spec fn window_keymap(k: crate::input::Key, modified: bool, in_search: bool, search_empty: bool, in_browser: bool, step: int) -> WindowCommand {
    if modified {
        WindowCommand::Pass
    } else if k == Key::Esc {
        if !in_search {
            WindowCommand::Pass
        } else if !search_empty {
            WindowCommand::ClearSearch
        } else {
            WindowCommand::CloseSearch
        }
    } else if in_search {
        WindowCommand::Pass
    } else {
        match k {
            Key::Char(c) => if c == 'j' {
                WindowCommand::Move(step as isize)
            } else if c == 'k' {
                WindowCommand::Move((-step) as isize)
            } else if c == 'h' {
                WindowCommand::Up
            } else if c == 'l' {
                WindowCommand::Activate
            } else if c == 'g' {
                WindowCommand::First
            } else if c == 'G' {
                WindowCommand::Last
            } else if c == 'a' || c == '.' {
                WindowCommand::ToggleHidden
            } else if c == 's' {
                WindowCommand::CycleSort
            } else if c == 'c' {
                WindowCommand::Copy
            } else if c == 'x' {
                WindowCommand::Cut
            } else if c == 'v' {
                WindowCommand::Paste
            } else if c == 'n' {
                WindowCommand::NewFolder
            } else if c == 'N' {
                WindowCommand::NewFile
            } else if c == 'r' {
                WindowCommand::Rename
            } else if c == 'd' {
                WindowCommand::Delete
            } else if c == 'e' {
                WindowCommand::Edit
            } else if c == 'o' {
                WindowCommand::Open
            } else if c == 'q' {
                WindowCommand::Close
            } else if c == '?' {
                WindowCommand::Shortcuts
            } else if c == '/' {
                WindowCommand::Search
            } else {
                WindowCommand::Pass
            },
            Key::Enter => if !in_browser { WindowCommand::Activate } else { WindowCommand::Pass },
            Key::Home => WindowCommand::First,
            Key::End => WindowCommand::Last,
            Key::PageUp => WindowCommand::Move((-step * 3) as isize),
            Key::PageDown => WindowCommand::Move((step * 3) as isize),
            _ => WindowCommand::Pass,
        }
    }
}

/// How far `j`/`k` move in the current view.
pub fn row_step(icons: bool, columns: usize) -> (r: isize)
    requires
        columns <= 0x1000_0000,
    ensures
        r == step_of(icons, columns as int),
{
    if icons {
        if columns < 1 { 1 } else { columns as isize }
    } else {
        1
    }
}

/// What a key press does in the window (`modified` when Control, Alt or Super is held).
pub fn window_key(k: crate::input::Key, modified: bool, in_search: bool, search_empty: bool, in_browser: bool, step: isize) -> (r: WindowCommand)
    requires
        1 <= step <= 0x1000_0000,
    ensures
        r == window_keymap(k, modified, in_search, search_empty, in_browser, step as int),
{
    if modified {
        return WindowCommand::Pass;
    }
    if k == Key::Esc {
        return if !in_search {
            WindowCommand::Pass
        } else if !search_empty {
            WindowCommand::ClearSearch
        } else {
            WindowCommand::CloseSearch
        };
    }
    if in_search {
        return WindowCommand::Pass;
    }
    match k {
        Key::Char(c) => if c == 'j' {
            WindowCommand::Move(step)
        } else if c == 'k' {
            WindowCommand::Move(-step)
        } else if c == 'h' {
            WindowCommand::Up
        } else if c == 'l' {
            WindowCommand::Activate
        } else if c == 'g' {
            WindowCommand::First
        } else if c == 'G' {
            WindowCommand::Last
        } else if c == 'a' || c == '.' {
            WindowCommand::ToggleHidden
        } else if c == 's' {
            WindowCommand::CycleSort
        } else if c == 'c' {
            WindowCommand::Copy
        } else if c == 'x' {
            WindowCommand::Cut
        } else if c == 'v' {
            WindowCommand::Paste
        } else if c == 'n' {
            WindowCommand::NewFolder
        } else if c == 'N' {
            WindowCommand::NewFile
        } else if c == 'r' {
            WindowCommand::Rename
        } else if c == 'd' {
            WindowCommand::Delete
        } else if c == 'e' {
            WindowCommand::Edit
        } else if c == 'o' {
            WindowCommand::Open
        } else if c == 'q' {
            WindowCommand::Close
        } else if c == '?' {
            WindowCommand::Shortcuts
        } else if c == '/' {
            WindowCommand::Search
        } else {
            WindowCommand::Pass
        },
        Key::Enter => if !in_browser { WindowCommand::Activate } else { WindowCommand::Pass },
        Key::Home => WindowCommand::First,
        Key::End => WindowCommand::Last,
        Key::PageUp => WindowCommand::Move(-step * 3),
        Key::PageDown => WindowCommand::Move(step * 3),
        _ => WindowCommand::Pass,
    }
}

/// The texts of the properties dialog, as the `info` command words them: name, kind,
/// size (a dash for folders), path, mode, owner (dashes where unknown) and modification
/// time (`unknown` when missing).
pub open spec fn properties_text(e: crate::fs::Entry, meta: Option<crate::cli::UnixMeta>) -> Seq<Seq<char>> {
    seq![
        e.name@,
        crate::cli::kind_name(e),
        crate::cli::size_column(e),
        e.path@,
        match meta {
            Some(m) => seq![kind_char(e.is_dir, e.is_symlink)] + permission_chars(m.mode),
            None => "—"@,
        },
        match meta {
            Some(m) => "uid "@ + crate::text::dec(m.uid as nat) + " · gid "@ + crate::text::dec(m.gid as nat),
            None => "—"@,
        },
        match e.modified {
            Some(t) => crate::metadata::time_text(t),
            None => "unknown"@,
        },
    ]
}

/// The texts of the properties dialog for an entry, with its Unix metadata where known.
pub fn properties(e: &crate::fs::Entry, meta: Option<crate::cli::UnixMeta>) -> (r: Vec<String>)
    ensures
        r@.map_values(|s: String| s@) == properties_text(*e, meta),
{
    let mut v: Vec<String> = Vec::new();
    v.push(e.name.clone());
    v.push(crate::cli::kind_label(e).to_owned());
    v.push(if e.is_dir { "—".to_owned() } else { crate::fs::human_size(e.size) });
    v.push(e.path.clone());
    match &meta {
        Some(m) => {
            v.push(mode_string(e.is_dir, e.is_symlink, m.mode));
            v.push(owner_text(m.uid, m.gid));
        },
        None => {
            v.push("—".to_owned());
            v.push("—".to_owned());
        },
    }
    match e.modified {
        Some(t) => v.push(crate::metadata::format_time(t)),
        None => v.push("unknown".to_owned()),
    }
    assert(v@.map_values(|s: String| s@) =~= properties_text(*e, meta));
    v
}

impl App {
    /// Moves to `target` (already resolved) through the history: the current folder
    /// becomes the previous location, whatever the target.
    pub fn jump(&mut self, target: String)
        ensures
            final(self).cwd == target,
            final(self).previous_dir == Some(old(self).cwd),
            final(self).selected == 0,
            final(self).scroll == 0,
            final(self).entries == old(self).entries,
            final(self).show_hidden == old(self).show_hidden,
            final(self).sort == old(self).sort,
            final(self).clipboard == old(self).clipboard,
            final(self).status == old(self).status,
            final(self).filter == old(self).filter,
    {
        self.previous_dir = Some(self.cwd.clone());
        self.open_dir(target);
    }

    /// Selects the entry at `index` when there is one (`true`); else nothing changes.
    pub fn select(&mut self, index: usize) -> (r: bool)
        ensures
            r == (index < old(self).entries@.len()),
            r ==> *final(self) == (App { selected: index, ..*old(self) }),
            !r ==> *final(self) == *old(self),
    {
        if index < self.entries.len() {
            self.selected = index;
            true
        } else {
            false
        }
    }
}


/// The sort mode of a row of the window's sort selector: 1 is size, 2 is date, any
/// other row is name.
pub open spec fn sort_of_row(row: u32) -> SortMode {
    if row == 1 {
        SortMode::Size
    } else if row == 2 {
        SortMode::Modified
    } else {
        SortMode::Name
    }
}

/// The row of the window's sort selector that shows a sort mode.
pub open spec fn row_of_sort(sort: SortMode) -> u32 {
    match sort {
        SortMode::Name => 0,
        SortMode::Size => 1,
        SortMode::Modified => 2,
    }
}

/// The sort mode chosen in the window's sort selector.
pub fn sort_for_row(row: u32) -> (r: SortMode)
    ensures
        r == sort_of_row(row),
{
    if row == 1 {
        SortMode::Size
    } else if row == 2 {
        SortMode::Modified
    } else {
        SortMode::Name
    }
}

/// The row the window's sort selector shows for a sort mode.
pub fn row_for_sort(sort: SortMode) -> (r: u32)
    ensures
        r == row_of_sort(sort),
{
    match sort {
        SortMode::Name => 0,
        SortMode::Size => 1,
        SortMode::Modified => 2,
    }
}

/// Showing a sort mode in the selector and reading it back gives the same mode, and
/// each of the three rows shows the mode it selects.
pub proof fn lemma_sort_rows(sort: SortMode, row: u32)
    ensures
        sort_of_row(row_of_sort(sort)) == sort,
        row < 3 ==> row_of_sort(sort_of_row(row)) == row,
{
}

/// Whether the search box text leaves the filter as it is: it equals the current
/// filter, or the browser is still loading (no current filter).
pub fn filter_unchanged(current: Option<&str>, text: &str) -> (r: bool)
    ensures
        r == match current {
            None => true,
            Some(f) => f@ == text@,
        },
{
    match current {
        None => true,
        Some(f) => same_str(f, text),
    }
}

} // verus!
