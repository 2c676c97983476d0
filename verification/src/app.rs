//! Browser state: the current directory, its shown entries, selection, clipboard and
//! status, with every transition the interface performs.
use vstd::prelude::*;

use crate::fs::{arrange_entries, Entry, SortMode};
use crate::search::filter_entries;
use crate::text::{chars_of, push_str, trim_chars};

verus! {

/// Whether a pasted entry is copied or moved.
#[derive(Debug, Clone, Copy, PartialEq, Eq, Structural)]
pub enum ClipboardMode {
    Copy,
    Cut,
}

/// An entry waiting to be pasted.
#[derive(Debug, Clone)]
pub struct Clipboard {
    pub path: String,
    pub mode: ClipboardMode,
}

/// The browser state.
pub struct App {
    pub cwd: String,
    pub previous_dir: Option<String>,
    pub entries: Vec<Entry>,
    pub selected: usize,
    pub scroll: usize,
    pub show_hidden: bool,
    pub sort: SortMode,
    pub clipboard: Option<Clipboard>,
    pub status: String,
    pub help: bool,
    pub preview: bool,
    pub filter: String,
}

/// What entering the selection asks for.
#[derive(Debug)]
pub enum Enter {
    /// Nothing is selected.
    Nothing,
    /// The selection is a file: open this path.
    Open(String),
    /// The selection is a directory: resolve this path and change into it.
    Descend(String),
}

/// The shown entries of a listing: arranged, then filtered.
pub open spec fn shown(listing: Seq<Entry>, hidden: bool, mode: SortMode, filter: Seq<char>) -> Seq<Entry> {
    crate::search::filtered(crate::fs::arranged(listing, hidden, mode), filter)
}

/// Index of the first entry with this name.
pub open spec fn position_of(s: Seq<Entry>, name: Seq<char>) -> Option<int>
    decreases s.len(),
{
    if s.len() == 0 {
        None
    } else if s[0].name@ == name {
        Some(0)
    } else {
        match position_of(s.drop_first(), name) {
            Some(i) => Some(i + 1),
            None => None,
        }
    }
}

/// Name of the selected entry, if the selection is in range.
pub open spec fn selected_name(a: App) -> Option<Seq<char>> {
    if a.selected < a.entries@.len() {
        Some(a.entries@[a.selected as int].name@)
    } else {
        None
    }
}

/// Selection after a new listing: the entry with the previously selected name when it
/// is still there, else the old index clamped to the last entry (0 when empty).
pub open spec fn reselected(prev: Option<Seq<char>>, s: Seq<Entry>, old_sel: int) -> int {
    let fallback = if old_sel < s.len() - 1 { old_sel } else if s.len() == 0 { 0 } else { s.len() - 1 };
    match prev {
        Some(n) => match position_of(s, n) {
            Some(i) => i,
            None => fallback,
        },
        None => fallback,
    }
}

/// `b` differs from `a` in the shown entries and the selection at most.
pub open spec fn same_but_listing(a: App, b: App) -> bool {
    &&& a.cwd == b.cwd
    &&& a.previous_dir == b.previous_dir
    &&& a.scroll == b.scroll
    &&& a.show_hidden == b.show_hidden
    &&& a.sort == b.sort
    &&& a.clipboard == b.clipboard
    &&& a.status == b.status
    &&& a.help == b.help
    &&& a.preview == b.preview
    &&& a.filter == b.filter
}

/// Listings and filter are small enough for fuzzy scoring without overflow.
pub open spec fn listing_fits(listing: Result<Vec<Entry>, String>, filter: Seq<char>) -> bool {
    crate::search::filter_fits(filter) && match listing {
        Ok(l) => crate::search::names_fit(l@),
        Err(_) => true,
    }
}

proof fn lemma_visible_fits(s: Seq<Entry>, hidden: bool)
    requires
        crate::search::names_fit(s),
    ensures
        crate::search::names_fit(crate::fs::visible(s, hidden)),
        forall|e: Entry| crate::fs::visible(s, hidden).contains(e) ==> s.contains(e),
    decreases s.len(),
{
    if s.len() > 0 {
        lemma_visible_fits(s.drop_last(), hidden);
        let r = crate::fs::visible(s.drop_last(), hidden);
        assert forall|e: Entry| crate::fs::visible(s, hidden).contains(e) implies s.contains(e) by {
            if r.contains(e) {
                let i = choose|i: int| 0 <= i < r.len() && r[i] == e;
                assert(s.drop_last().contains(e));
                let j = choose|j: int| 0 <= j < s.drop_last().len() && s.drop_last()[j] == e;
                assert(s[j] == e);
            } else {
                assert(e == s.last());
                assert(s[s.len() - 1] == e);
            }
        }
        assert forall|i: int| 0 <= i < crate::fs::visible(s, hidden).len() implies vstd::utf8::encode_utf8(
            crate::text::lowercase(#[trigger] crate::fs::visible(s, hidden)[i].name@),
        ).len() < 0x1_0000_0000_0000 by {
            let v = crate::fs::visible(s, hidden);
            assert(v.contains(v[i]));
            let j = choose|j: int| 0 <= j < s.len() && s[j] == v[i];
        }
    }
}

proof fn lemma_sorted_fits(s: Seq<Entry>, mode: SortMode)
    requires
        crate::search::names_fit(s),
    ensures
        crate::search::names_fit(crate::fs::sorted_listing(s, mode)),
    decreases s.len(),
{
    broadcast use vstd::seq_lib::group_seq_properties;
    if s.len() > 0 {
        lemma_sorted_fits(s.drop_last(), mode);
        let r = crate::fs::sorted_listing(s.drop_last(), mode);
        crate::fs::lemma_insert_from_bounds(r, s.last(), mode, 0);
        let p = crate::fs::insert_from(r, s.last(), mode, 0);
        let t = r.insert(p, s.last());
        assert forall|i: int| 0 <= i < t.len() implies vstd::utf8::encode_utf8(
            crate::text::lowercase(#[trigger] t[i].name@),
        ).len() < 0x1_0000_0000_0000 by {
            if i < p {
                assert(t[i] == r[i]);
            } else if i == p {
                assert(t[i] == s[s.len() - 1]);
            } else {
                assert(t[i] == r[i - 1]);
            }
        }
    }
}

/// Finds the first entry with this name.
pub fn find_name(entries: &Vec<Entry>, name: &String) -> (r: Option<usize>)
    ensures
        match r {
            Some(i) => position_of(entries@, name@) == Some(i as int),
            None => position_of(entries@, name@) is None,
        },
{
    let mut i: usize = 0;
    assert(entries@.skip(0) =~= entries@);
    while i < entries.len()
        invariant
            i <= entries@.len(),
            position_of(entries@, name@) == match position_of(entries@.skip(i as int), name@) {
                Some(j) => Some(j + i),
                None => None,
            },
        decreases entries.len() - i,
    {
        assert(entries@.skip(i as int).drop_first() =~= entries@.skip(i + 1));
        assert(entries@.skip(i as int)[0] == entries@[i as int]);
        if entries[i].name == *name {
            return Some(i);
        }
        i += 1;
    }
    assert(entries@.skip(i as int) =~= Seq::<Entry>::empty());
    None
}

impl App {
    /// Replaces the shown entries with `listing` (arranged and filtered), keeping the
    /// selected name selected when it is still shown. A failed listing changes nothing.
    pub fn refresh(&mut self, listing: Result<Vec<Entry>, String>) -> (r: Result<(), String>)
        requires
            listing_fits(listing, old(self).filter@),
        ensures
            match listing {
                Err(e) => r == Err::<(), String>(e) && *final(self) == *old(self),
                Ok(l) => {
                    &&& r is Ok
                    &&& same_but_listing(*old(self), *final(self))
                    &&& final(self).entries@ == shown(l@, old(self).show_hidden, old(self).sort, old(self).filter@)
                    &&& final(self).selected == reselected(selected_name(*old(self)), final(self).entries@, old(self).selected as int)
                },
            },
    {
        let listing = match listing {
            Err(e) => return Err(e),
            Ok(l) => l,
        };
        let prev: Option<String> = if self.selected < self.entries.len() {
            Some(self.entries[self.selected].name.clone())
        } else {
            None
        };
        proof {
            lemma_visible_fits(listing@, self.show_hidden);
            lemma_sorted_fits(crate::fs::visible(listing@, self.show_hidden), self.sort);
        }
        let arranged = arrange_entries(listing, self.show_hidden, self.sort);
        let entries = filter_entries(arranged, self.filter.as_str());
        self.entries = entries;
        let len = self.entries.len();
        let fallback = if len == 0 {
            0
        } else if self.selected < len - 1 {
            self.selected
        } else {
            len - 1
        };
        let found = match &prev {
            Some(n) => find_name(&self.entries, n),
            None => None,
        };
        let chosen = match found {
            Some(i) => i,
            None => fallback,
        };
        self.selected = chosen;
        Ok(())
    }
}


/// Selection after `move_by`: the index moved by `delta`, saturating at the ends of
/// `usize`, then clamped to the last entry.
pub open spec fn moved(selected: int, delta: int, len: int) -> int {
    let t = selected + delta;
    let sat = if t < 0 { 0 } else if t > usize::MAX { usize::MAX as int } else { t };
    if sat < len - 1 { sat } else { len - 1 }
}

/// Status after copying or cutting: the verb, with the clipboard helper that took the
/// path in brackets when there was one.
pub open spec fn clipboard_status(mode: ClipboardMode, helper: Option<String>) -> Seq<char> {
    let label = match mode {
        ClipboardMode::Copy => "copied"@,
        ClipboardMode::Cut => "cut"@,
    };
    match helper {
        Some(h) => label + " ("@ + h@ + ")"@,
        None => label,
    }
}

/// Where going back to the previous location leads: the previous folder becomes the
/// current one and the current one the previous; without a previous one nothing moves.
pub open spec fn previous_swap(cwd: String, previous: Option<String>) -> (String, Option<String>) {
    match previous {
        Some(p) => (p, Some(cwd)),
        None => (cwd, None),
    }
}

/// Going back to the previous location twice returns to where one was, with the same
/// previous location.
pub proof fn lemma_previous_twice(cwd: String, previous: String)
    ensures
        ({
            let (c1, p1) = previous_swap(cwd, Some(previous));
            previous_swap(c1, p1)
        }) == (cwd, Some(previous)),
{
}

/// Moving the selection keeps it on an entry.
pub proof fn lemma_moved_in_range(selected: int, delta: int, len: int)
    requires
        len > 0,
        0 <= selected,
    ensures
        0 <= moved(selected, delta, len) < len,
{
}

proof fn lemma_position_of(s: Seq<Entry>, name: Seq<char>)
    ensures
        position_of(s, name) matches Some(i) ==> 0 <= i < s.len() && s[i].name@ == name,
    decreases s.len(),
{
    if s.len() > 0 && s[0].name@ != name {
        lemma_position_of(s.drop_first(), name);
    }
}

/// After a new listing the selection is on an entry (when there is one), and on the
/// entry with the previously selected name when that name is still listed.
pub proof fn lemma_reselected(prev: Option<Seq<char>>, s: Seq<Entry>, old_sel: int)
    requires
        0 <= old_sel,
    ensures
        s.len() > 0 ==> 0 <= reselected(prev, s, old_sel) < s.len(),
        s.len() == 0 ==> reselected(prev, s, old_sel) == 0,
        prev matches Some(n) ==> (position_of(s, n) is Some ==> s[reselected(prev, s, old_sel)].name@ == n),
{
    match prev {
        Some(n) => lemma_position_of(s, n),
        None => {},
    }
}

/// When the previously selected name is not in the new listing (or nothing was
/// selected), the selection keeps its old index, moved back to the last entry when the
/// listing got shorter, and is 0 on an empty listing: it depends on the old index and
/// the new length alone.
pub proof fn lemma_reselected_fallback(prev: Option<Seq<char>>, s: Seq<Entry>, t: Seq<Entry>, old_sel: int)
    requires
        0 <= old_sel,
        prev matches Some(n) ==> position_of(s, n) is None,
        s.len() == t.len(),
    ensures
        reselected(prev, s, old_sel) == (if s.len() == 0 {
            0
        } else if old_sel < s.len() {
            old_sel
        } else {
            s.len() - 1
        }),
        reselected(prev, s, old_sel) == reselected(None, t, old_sel),
        old_sel < s.len() ==> reselected(prev, s, old_sel) == old_sel,
{
}

impl App {
    /// The state for directory `cwd` (already resolved) with its first listing; `focus`
    /// names an entry to select (the file the browser was opened on).
    pub fn new(cwd: String, show_hidden: bool, listing: Result<Vec<Entry>, String>, focus: Option<String>) -> (r: Result<App, String>)
        requires
            listing_fits(listing, Seq::empty()),
        ensures
            match listing {
                Err(e) => r == Err::<App, String>(e),
                Ok(l) => r matches Ok(a) && {
                    &&& a.cwd == cwd
                    &&& a.previous_dir is None
                    &&& a.scroll == 0
                    &&& a.show_hidden == show_hidden
                    &&& a.sort == SortMode::Name
                    &&& a.clipboard is None
                    &&& a.status@ == Seq::<char>::empty()
                    &&& !a.help
                    &&& a.preview
                    &&& a.filter@ == Seq::<char>::empty()
                    &&& a.entries@ == shown(l@, show_hidden, SortMode::Name, Seq::empty())
                    &&& a.selected == match focus {
                        Some(n) => match position_of(a.entries@, n@) {
                            Some(i) => i,
                            None => 0,
                        },
                        None => 0,
                    }
                },
            },
    {
        let mut app = App {
            cwd,
            previous_dir: None,
            entries: Vec::new(),
            selected: 0,
            scroll: 0,
            show_hidden,
            sort: SortMode::Name,
            clipboard: None,
            status: String::new(),
            help: false,
            preview: true,
            filter: String::new(),
        };
        app.refresh(listing)?;
        match focus {
            Some(name) => {
                app.selected = match find_name(&app.entries, &name) {
                    Some(i) => i,
                    None => 0,
                };
            },
            None => {},
        }
        Ok(app)
    }

    /// The selected entry, when the selection is in range.
    pub fn current(&self) -> (r: Option<&Entry>)
        ensures
            r == if self.selected < self.entries@.len() {
                Some(&self.entries@[self.selected as int])
            } else {
                None
            },
    {
        if self.selected < self.entries.len() {
            Some(&self.entries[self.selected])
        } else {
            None
        }
    }

    /// Moves the selection by `delta` rows, staying within the entries.
    pub fn move_by(&mut self, delta: isize)
        ensures
            final(self).entries == old(self).entries,
            same_but_listing(*old(self), *final(self)),
            final(self).selected == if old(self).entries@.len() == 0 {
                old(self).selected as int
            } else {
                moved(old(self).selected as int, delta as int, old(self).entries@.len() as int)
            },
    {
        if self.entries.len() == 0 {
            return;
        }
        let sat: usize = if delta >= 0 {
            let d = delta as usize;
            if self.selected > usize::MAX - d {
                usize::MAX
            } else {
                self.selected + d
            }
        } else {
            let d: usize = if delta == isize::MIN { (isize::MAX as usize) + 1 } else { (-delta) as usize };
            if self.selected < d {
                0
            } else {
                self.selected - d
            }
        };
        let last = self.entries.len() - 1;
        self.selected = if sat < last { sat } else { last };
    }

    /// Selects the first entry.
    pub fn home(&mut self)
        ensures
            final(self).entries == old(self).entries,
            same_but_listing(*old(self), *final(self)),
            final(self).selected == 0,
    {
        self.selected = 0;
    }

    /// Selects the last entry (the first when there are none).
    pub fn end(&mut self)
        ensures
            final(self).entries == old(self).entries,
            same_but_listing(*old(self), *final(self)),
            final(self).selected == if old(self).entries@.len() == 0 { 0 } else { old(self).entries@.len() - 1 },
    {
        self.selected = if self.entries.len() == 0 { 0 } else { self.entries.len() - 1 };
    }

    /// Enters the selection: a file is to be opened; for a directory the current one
    /// becomes the previous location and the directory is to be resolved and listed
    /// (see `open_dir`).
    pub fn enter(&mut self) -> (r: Enter)
        ensures
            final(self).entries == old(self).entries,
            final(self).selected == old(self).selected,
            final(self).cwd == old(self).cwd,
            final(self).scroll == old(self).scroll,
            final(self).show_hidden == old(self).show_hidden,
            final(self).sort == old(self).sort,
            final(self).clipboard == old(self).clipboard,
            final(self).status == old(self).status,
            final(self).help == old(self).help,
            final(self).preview == old(self).preview,
            final(self).filter == old(self).filter,
            if old(self).selected < old(self).entries@.len() {
                let e = old(self).entries@[old(self).selected as int];
                if e.is_dir {
                    r == Enter::Descend(e.path) && final(self).previous_dir == Some(old(self).cwd)
                } else {
                    r == Enter::Open(e.path) && final(self).previous_dir == old(self).previous_dir
                }
            } else {
                r == Enter::Nothing && final(self).previous_dir == old(self).previous_dir
            },
    {
        if self.selected >= self.entries.len() {
            return Enter::Nothing;
        }
        let is_dir = self.entries[self.selected].is_dir;
        let path = self.entries[self.selected].path.clone();
        if is_dir {
            self.previous_dir = Some(self.cwd.clone());
            Enter::Descend(path)
        } else {
            Enter::Open(path)
        }
    }

    /// Makes `dir` (already resolved) the current directory, selecting from the top;
    /// its listing is given to `refresh` next.
    pub fn open_dir(&mut self, dir: String)
        ensures
            final(self).cwd == dir,
            final(self).selected == 0,
            final(self).scroll == 0,
            final(self).entries == old(self).entries,
            final(self).previous_dir == old(self).previous_dir,
            final(self).show_hidden == old(self).show_hidden,
            final(self).sort == old(self).sort,
            final(self).clipboard == old(self).clipboard,
            final(self).status == old(self).status,
            final(self).help == old(self).help,
            final(self).preview == old(self).preview,
            final(self).filter == old(self).filter,
    {
        self.cwd = dir;
        self.selected = 0;
        self.scroll = 0;
    }

    /// Goes to the parent directory, if there is one, remembering the current one as
    /// the previous location; `false` (nothing changed) at the root.
    pub fn parent(&mut self) -> (r: bool)
        ensures
            final(self).entries == old(self).entries,
            final(self).show_hidden == old(self).show_hidden,
            final(self).sort == old(self).sort,
            final(self).clipboard == old(self).clipboard,
            final(self).status == old(self).status,
            final(self).help == old(self).help,
            final(self).preview == old(self).preview,
            final(self).filter == old(self).filter,
            match crate::paths::path_parent(old(self).cwd@) {
                None => !r && *final(self) == *old(self),
                Some(p) => {
                    &&& r
                    &&& final(self).cwd@ == p
                    &&& final(self).previous_dir == Some(old(self).cwd)
                    &&& final(self).selected == 0
                    &&& final(self).scroll == 0
                },
            },
    {
        match crate::paths::parent(self.cwd.as_str()) {
            None => false,
            Some(p) => {
                let old_cwd = self.cwd.clone();
                self.previous_dir = Some(old_cwd);
                self.cwd = p;
                self.selected = 0;
                self.scroll = 0;
                true
            },
        }
    }

    /// After going to the parent and listing it: selects the directory that was left
    /// (the previous location's file name), or the first entry when it is not shown.
    pub fn select_previous_child(&mut self)
        ensures
            final(self).entries == old(self).entries,
            same_but_listing(*old(self), *final(self)),
            final(self).selected == match old(self).previous_dir {
                Some(p) => match crate::paths::path_file_name(p@) {
                    Some(n) => match position_of(old(self).entries@, n) {
                        Some(i) => i,
                        None => 0,
                    },
                    None => old(self).selected as int,
                },
                None => old(self).selected as int,
            },
    {
        let name = match &self.previous_dir {
            Some(p) => crate::paths::file_name(p.as_str()),
            None => None,
        };
        match name {
            Some(n) => {
                self.selected = match find_name(&self.entries, &n) {
                    Some(i) => i,
                    None => 0,
                };
            },
            None => {},
        }
    }

    /// Shows or hides dot entries, then shows `listing` (of the current directory).
    pub fn toggle_hidden(&mut self, listing: Result<Vec<Entry>, String>) -> (r: Result<(), String>)
        requires
            listing_fits(listing, old(self).filter@),
        ensures
            final(self).show_hidden == !old(self).show_hidden,
            final(self).cwd == old(self).cwd,
            final(self).filter == old(self).filter,
            final(self).sort == old(self).sort,
            final(self).previous_dir == old(self).previous_dir,
            final(self).scroll == old(self).scroll,
            final(self).clipboard == old(self).clipboard,
            final(self).status == old(self).status,
            final(self).help == old(self).help,
            final(self).preview == old(self).preview,
            match listing {
                Err(e) => r == Err::<(), String>(e) && final(self).entries == old(self).entries
                    && final(self).selected == old(self).selected,
                Ok(l) => r is Ok && final(self).entries@ == shown(l@, !old(self).show_hidden, old(self).sort, old(self).filter@)
                    && final(self).selected == reselected(selected_name(*old(self)), final(self).entries@, old(self).selected as int),
            },
    {
        self.show_hidden = !self.show_hidden;
        self.refresh(listing)
    }

    /// Moves to the next sort mode, then shows `listing` (of the current directory).
    pub fn cycle_sort(&mut self, listing: Result<Vec<Entry>, String>) -> (r: Result<(), String>)
        requires
            listing_fits(listing, old(self).filter@),
        ensures
            final(self).sort == old(self).sort.next_mode(),
            final(self).show_hidden == old(self).show_hidden,
            final(self).cwd == old(self).cwd,
            final(self).filter == old(self).filter,
            final(self).previous_dir == old(self).previous_dir,
            final(self).scroll == old(self).scroll,
            final(self).clipboard == old(self).clipboard,
            final(self).status == old(self).status,
            final(self).help == old(self).help,
            final(self).preview == old(self).preview,
            match listing {
                Err(e) => r == Err::<(), String>(e) && final(self).entries == old(self).entries
                    && final(self).selected == old(self).selected,
                Ok(l) => r is Ok && final(self).entries@ == shown(l@, old(self).show_hidden, old(self).sort.next_mode(), old(self).filter@)
                    && final(self).selected == reselected(selected_name(*old(self)), final(self).entries@, old(self).selected as int),
            },
    {
        self.sort = self.sort.next();
        self.refresh(listing)
    }

    /// Sets the name filter (an empty one shows everything), selecting from the top,
    /// then shows `listing` (of the current directory).
    pub fn set_filter(&mut self, filter: String, listing: Result<Vec<Entry>, String>) -> (r: Result<(), String>)
        requires
            listing_fits(listing, filter@),
        ensures
            final(self).filter == filter,
            final(self).scroll == 0,
            final(self).show_hidden == old(self).show_hidden,
            final(self).sort == old(self).sort,
            final(self).cwd == old(self).cwd,
            final(self).previous_dir == old(self).previous_dir,
            final(self).clipboard == old(self).clipboard,
            final(self).status == old(self).status,
            final(self).help == old(self).help,
            final(self).preview == old(self).preview,
            match listing {
                Err(e) => r == Err::<(), String>(e) && final(self).entries == old(self).entries
                    && final(self).selected == 0,
                Ok(l) => r is Ok && final(self).entries@ == shown(l@, old(self).show_hidden, old(self).sort, filter@)
                    && final(self).selected == reselected(
                        if 0 < old(self).entries@.len() { Some(old(self).entries@[0].name@) } else { None },
                        final(self).entries@,
                        0,
                    ),
            },
    {
        self.filter = filter;
        self.selected = 0;
        self.scroll = 0;
        self.refresh(listing)
    }

    /// Goes home: the current directory becomes the previous location, then `home`
    /// (resolved, or the error resolving it) becomes current; list it next.
    pub fn go_home(&mut self, home: Result<String, String>) -> (r: Result<(), String>)
        ensures
            final(self).previous_dir == Some(old(self).cwd),
            final(self).entries == old(self).entries,
            final(self).filter == old(self).filter,
            final(self).status == old(self).status,
            final(self).show_hidden == old(self).show_hidden,
            final(self).sort == old(self).sort,
            final(self).clipboard == old(self).clipboard,
            final(self).help == old(self).help,
            final(self).preview == old(self).preview,
            match home {
                Err(e) => r == Err::<(), String>(e) && final(self).cwd == old(self).cwd
                    && final(self).selected == old(self).selected && final(self).scroll == old(self).scroll,
                Ok(h) => r is Ok && final(self).cwd == h && final(self).selected == 0 && final(self).scroll == 0,
            },
    {
        self.previous_dir = Some(self.cwd.clone());
        match home {
            Err(e) => Err(e),
            Ok(h) => {
                self.open_dir(h);
                Ok(())
            },
        }
    }

    /// Swaps the current and the previous location (`true`, list the new current one
    /// next); without a previous location only says so in the status (`false`).
    pub fn go_previous(&mut self) -> (r: bool)
        ensures
            final(self).entries == old(self).entries,
            final(self).filter == old(self).filter,
            final(self).clipboard == old(self).clipboard,
            final(self).show_hidden == old(self).show_hidden,
            final(self).sort == old(self).sort,
            final(self).help == old(self).help,
            final(self).preview == old(self).preview,
            match old(self).previous_dir {
                None => !r && final(self).status@ == "no previous location"@ && final(self).cwd == old(self).cwd
                    && final(self).previous_dir is None && final(self).selected == old(self).selected
                    && final(self).scroll == old(self).scroll,
                Some(p) => r && final(self).cwd == p && final(self).previous_dir == Some(old(self).cwd)
                    && final(self).selected == 0 && final(self).scroll == 0 && final(self).status == old(self).status,
            },
            (final(self).cwd, final(self).previous_dir) == previous_swap(old(self).cwd, old(self).previous_dir),
    {
        match self.previous_dir.take() {
            None => {
                self.status = "no previous location".to_owned();
                false
            },
            Some(p) => {
                let current = self.cwd.clone();
                self.cwd = p;
                self.previous_dir = Some(current);
                self.selected = 0;
                self.scroll = 0;
                true
            },
        }
    }

    /// Puts the selected entry on the clipboard; `helper` names the system clipboard tool
    /// that also took its path, if one did. Nothing happens without a selection.
    pub fn set_clipboard(&mut self, mode: ClipboardMode, helper: Option<String>)
        ensures
            final(self).entries == old(self).entries,
            final(self).selected == old(self).selected,
            final(self).cwd == old(self).cwd,
            final(self).filter == old(self).filter,
            final(self).previous_dir == old(self).previous_dir,
            final(self).scroll == old(self).scroll,
            final(self).show_hidden == old(self).show_hidden,
            final(self).sort == old(self).sort,
            final(self).help == old(self).help,
            final(self).preview == old(self).preview,
            if old(self).selected < old(self).entries@.len() {
                &&& final(self).clipboard == Some(Clipboard { path: old(self).entries@[old(self).selected as int].path, mode })
                &&& final(self).status@ == clipboard_status(mode, helper)
            } else {
                final(self).clipboard == old(self).clipboard && final(self).status == old(self).status
            },
    {
        if self.selected >= self.entries.len() {
            return;
        }
        let path = self.entries[self.selected].path.clone();
        self.clipboard = Some(Clipboard { path, mode });
        let mut status = String::new();
        match mode {
            ClipboardMode::Copy => push_str(&mut status, "copied"),
            ClipboardMode::Cut => push_str(&mut status, "cut"),
        }
        match &helper {
            Some(h) => {
                push_str(&mut status, " (");
                push_str(&mut status, h.as_str());
                push_str(&mut status, ")");
            },
            None => {},
        }
        self.status = status;
    }
}


/// Why a name cannot be created or renamed to inside the current directory, if it
/// cannot: after trimming white space it must be non-empty and a single path segment
/// (not `.` or `..`, without `/`, `\` or NUL).
pub open spec fn name_error(name: Seq<char>) -> Option<Seq<char>> {
    let t = crate::text::trim(name);
    if t.len() == 0 {
        Some("name is empty"@)
    } else if t == seq!['.'] || t == seq!['.', '.'] || t.contains('/') || t.contains('\\') || t.contains(
        '\0',
    ) {
        Some("name must be a single path segment"@)
    } else {
        None
    }
}

fn has_char(s: &Vec<char>, c: char) -> (r: bool)
    ensures
        r == s@.contains(c),
{
    let mut i: usize = 0;
    while i < s.len()
        invariant
            i <= s@.len(),
            forall|k: int| 0 <= k < i ==> s@[k] != c,
        decreases s.len() - i,
    {
        if s[i] == c {
            return true;
        }
        i += 1;
    }
    false
}

/// Checks that a new entry name is a single path segment.
pub fn validate_entry_name(name: &str) -> (r: Result<(), String>)
    ensures
        match name_error(name@) {
            Some(m) => r matches Err(e) && e@ == m,
            None => r is Ok,
        },
{
    let cs = chars_of(name);
    let t = trim_chars(&cs);
    if t.len() == 0 {
        return Err("name is empty".to_owned());
    }
    let dot = t.len() == 1 && t[0] == '.';
    let dotdot = t.len() == 2 && t[0] == '.' && t[1] == '.';
    proof {
        assert(dot == (t@ == seq!['.'])) by {
            if t@ == seq!['.'] {
                assert(t@.len() == 1 && t@[0] == '.');
            }
            if dot {
                assert(t@ =~= seq!['.']);
            }
        }
        assert(dotdot == (t@ == seq!['.', '.'])) by {
            if t@ == seq!['.', '.'] {
                assert(t@.len() == 2 && t@[0] == '.' && t@[1] == '.');
            }
            if dotdot {
                assert(t@ =~= seq!['.', '.']);
            }
        }
    }
    if dot || dotdot || has_char(&t, '/') || has_char(&t, '\\') || has_char(&t, '\0') {
        return Err("name must be a single path segment".to_owned());
    }
    Ok(())
}


/// What pasting does once the clipboard is known.
#[derive(Debug)]
pub enum Paste {
    /// Nothing to paste (the status says so).
    Empty,
    /// A cut entry is already in this directory (the status says so).
    AlreadyHere,
    /// Copy or move `from` to `to` (a fresh name must be found when `to` exists).
    Transfer { from: String, to: String, mode: ClipboardMode },
}

/// `b` equals `a` except possibly in its status.
pub open spec fn same_but_status(a: App, b: App) -> bool {
    &&& a.cwd == b.cwd
    &&& a.previous_dir == b.previous_dir
    &&& a.entries == b.entries
    &&& a.selected == b.selected
    &&& a.scroll == b.scroll
    &&& a.show_hidden == b.show_hidden
    &&& a.sort == b.sort
    &&& a.clipboard == b.clipboard
    &&& a.help == b.help
    &&& a.preview == b.preview
    &&& a.filter == b.filter
}

/// Name of a path for messages: its file name, or nothing.
pub open spec fn shown_file_name(p: Seq<char>) -> Seq<char> {
    match crate::paths::path_file_name(p) {
        Some(n) => n,
        None => Seq::empty(),
    }
}

impl App {
    /// Where a new entry named `name` goes in the current directory, or why it cannot.
    pub fn entry_target(&self, name: &str) -> (r: Result<String, String>)
        ensures
            match name_error(name@) {
                Some(m) => r matches Err(e) && e@ == m,
                None => r matches Ok(t) && t@ == crate::paths::path_join(self.cwd@, name@),
            },
    {
        validate_entry_name(name)?;
        Ok(crate::paths::join(self.cwd.as_str(), name))
    }

    /// Records the outcome of creating directory `name`: on success the status says so.
    pub fn create_dir(&mut self, name: &str, made: Result<(), String>) -> (r: Result<(), String>)
        ensures
            same_but_status(*old(self), *final(self)),
            match made {
                Err(e) => r == Err::<(), String>(e) && final(self).status == old(self).status,
                Ok(_) => r is Ok && final(self).status@ == "created "@ + name@ + "/"@,
            },
    {
        made?;
        let mut status = String::new();
        push_str(&mut status, "created ");
        push_str(&mut status, name);
        push_str(&mut status, "/");
        self.status = status;
        Ok(())
    }

    /// Records the outcome of creating file `name`: on success the status says so.
    pub fn create_file(&mut self, name: &str, made: Result<(), String>) -> (r: Result<(), String>)
        ensures
            same_but_status(*old(self), *final(self)),
            match made {
                Err(e) => r == Err::<(), String>(e) && final(self).status == old(self).status,
                Ok(_) => r is Ok && final(self).status@ == "created "@ + name@,
            },
    {
        made?;
        let mut status = String::new();
        push_str(&mut status, "created ");
        push_str(&mut status, name);
        self.status = status;
        Ok(())
    }

    /// The selected entry's path and its new path for a rename to `name`, or why not.
    pub fn rename_target(&self, name: &str) -> (r: Result<(String, String), String>)
        ensures
            match name_error(name@) {
                Some(m) => r matches Err(e) && e@ == m,
                None => if self.selected < self.entries@.len() {
                    r matches Ok((from, to)) && from == self.entries@[self.selected as int].path
                        && to@ == crate::paths::path_join(self.cwd@, name@)
                } else {
                    r matches Err(e) && e@ == "nothing selected"@
                },
            },
    {
        validate_entry_name(name)?;
        if self.selected >= self.entries.len() {
            return Err("nothing selected".to_owned());
        }
        let from = self.entries[self.selected].path.clone();
        Ok((from, crate::paths::join(self.cwd.as_str(), name)))
    }

    /// Records the outcome of renaming the selection to `name`.
    pub fn rename_current(&mut self, name: &str, done: Result<(), String>) -> (r: Result<(), String>)
        ensures
            same_but_status(*old(self), *final(self)),
            match done {
                Err(e) => r == Err::<(), String>(e) && final(self).status == old(self).status,
                Ok(_) => r is Ok && final(self).status@ == "renamed to "@ + name@,
            },
    {
        done?;
        let mut status = String::new();
        push_str(&mut status, "renamed to ");
        push_str(&mut status, name);
        self.status = status;
        Ok(())
    }

    /// The path of the selected entry, to be moved to the trash.
    pub fn delete_target(&self) -> (r: Result<String, String>)
        ensures
            if self.selected < self.entries@.len() {
                r == Ok::<String, String>(self.entries@[self.selected as int].path)
            } else {
                r matches Err(e) && e@ == "nothing selected"@
            },
    {
        if self.selected >= self.entries.len() {
            return Err("nothing selected".to_owned());
        }
        Ok(self.entries[self.selected].path.clone())
    }

    /// Records the outcome of moving the selection to the trash.
    pub fn delete_current(&mut self, trashed: Result<(), String>) -> (r: Result<(), String>)
        ensures
            same_but_status(*old(self), *final(self)),
            if old(self).selected < old(self).entries@.len() {
                match trashed {
                    Err(e) => r == Err::<(), String>(e) && final(self).status == old(self).status,
                    Ok(_) => r is Ok && final(self).status@ == "moved "@ + old(self).entries@[old(self).selected as int].name@
                        + " to trash"@,
                }
            } else {
                r matches Err(e) && e@ == "nothing selected"@ && final(self).status == old(self).status
            },
    {
        if self.selected >= self.entries.len() {
            return Err("nothing selected".to_owned());
        }
        trashed?;
        let mut status = String::new();
        push_str(&mut status, "moved ");
        push_str(&mut status, self.entries[self.selected].name.as_str());
        push_str(&mut status, " to trash");
        self.status = status;
        Ok(())
    }

    /// Decides what pasting does: the own clipboard, else `imported` (a path the system
    /// clipboard held) to be copied; the target is that name in the current directory.
    pub fn paste_plan(&mut self, imported: Option<String>) -> (r: Result<Paste, String>)
        ensures
            final(self).entries == old(self).entries,
            final(self).selected == old(self).selected,
            final(self).cwd == old(self).cwd,
            final(self).clipboard == old(self).clipboard,
            final(self).previous_dir == old(self).previous_dir,
            final(self).scroll == old(self).scroll,
            final(self).show_hidden == old(self).show_hidden,
            final(self).sort == old(self).sort,
            final(self).help == old(self).help,
            final(self).preview == old(self).preview,
            final(self).filter == old(self).filter,
            ({
                let clip: Option<(String, ClipboardMode)> = match old(self).clipboard {
                    Some(c) => Some((c.path, c.mode)),
                    None => match imported {
                        Some(p) => Some((p, ClipboardMode::Copy)),
                        None => None,
                    },
                };
                match clip {
                    None => r matches Ok(Paste::Empty) && final(self).status@ == "clipboard empty"@,
                    Some((from, mode)) => match crate::paths::path_file_name(from@) {
                        None => r matches Err(e) && e@ == "invalid clipboard path"@ && final(self).status
                            == old(self).status,
                        Some(n) => {
                            let to = crate::paths::path_join(old(self).cwd@, n);
                            if crate::paths::path_same(to, from@) && mode == ClipboardMode::Cut {
                                r matches Ok(Paste::AlreadyHere) && final(self).status@ == "already here"@
                            } else {
                                r matches Ok(Paste::Transfer { from: f, to: t, mode: m }) && f == from && t@ == to
                                    && m == mode && final(self).status == old(self).status
                            }
                        },
                    },
                }
            }),
    {
        let (from, mode) = match &self.clipboard {
            Some(c) => (c.path.clone(), c.mode),
            None => match imported {
                Some(p) => (p, ClipboardMode::Copy),
                None => {
                    self.status = "clipboard empty".to_owned();
                    return Ok(Paste::Empty);
                },
            },
        };
        let name = match crate::paths::file_name(from.as_str()) {
            Some(n) => n,
            None => return Err("invalid clipboard path".to_owned()),
        };
        let to = crate::paths::join(self.cwd.as_str(), name.as_str());
        if crate::paths::same_path(to.as_str(), from.as_str()) && mode == ClipboardMode::Cut {
            self.status = "already here".to_owned();
            return Ok(Paste::AlreadyHere);
        }
        Ok(Paste::Transfer { from, to, mode })
    }

    /// Records a finished paste into `target`: a cut empties the clipboard; the status
    /// names the pasted entry. The directory is listed next.
    pub fn pasted(&mut self, target: &str, mode: ClipboardMode)
        ensures
            final(self).entries == old(self).entries,
            final(self).selected == old(self).selected,
            final(self).cwd == old(self).cwd,
            final(self).previous_dir == old(self).previous_dir,
            final(self).scroll == old(self).scroll,
            final(self).show_hidden == old(self).show_hidden,
            final(self).sort == old(self).sort,
            final(self).help == old(self).help,
            final(self).preview == old(self).preview,
            final(self).filter == old(self).filter,
            final(self).clipboard == if mode == ClipboardMode::Cut { None } else { old(self).clipboard },
            final(self).status@ == "pasted "@ + shown_file_name(target@),
    {
        if mode == ClipboardMode::Cut {
            self.clipboard = None;
        }
        let mut status = String::new();
        push_str(&mut status, "pasted ");
        match crate::paths::file_name(target) {
            Some(n) => push_str(&mut status, n.as_str()),
            None => {},
        }
        assert(status@ =~= "pasted "@ + shown_file_name(target@));
        self.status = status;
    }
}

/// The name `stem copy n.ext` (or `stem copy n` without an extension) for the `n`th
/// free copy of `path`, in its parent directory (`.` when it has none), with `copy` as
/// the stem when the path has none.
pub open spec fn copy_name(path: Seq<char>, n: nat) -> Seq<char> {
    let stem = match crate::paths::path_file_stem(path) {
        Some(s) => s,
        None => "copy"@,
    };
    match crate::paths::path_extension(path) {
        Some(e) => stem + " copy "@ + crate::text::dec(n) + "."@ + e,
        None => stem + " copy "@ + crate::text::dec(n),
    }
}

/// The copy names tried for one path are all different, so the search for a free one
/// never meets the same name twice.
pub proof fn lemma_copy_names_differ(path: Seq<char>, n1: nat, n2: nat)
    requires
        n1 != n2,
    ensures
        copy_name(path, n1) != copy_name(path, n2),
{
    let stem = match crate::paths::path_file_stem(path) {
        Some(s) => s,
        None => "copy"@,
    };
    let head = stem + " copy "@;
    let (d1, d2) = (crate::text::dec(n1), crate::text::dec(n2));
    if copy_name(path, n1) == copy_name(path, n2) {
        match crate::paths::path_extension(path) {
            Some(e) => {
                let tail = "."@ + e;
                assert(copy_name(path, n1) =~= head + d1 + tail);
                assert(copy_name(path, n2) =~= head + d2 + tail);
                assert(d1.len() == d2.len());
                assert(d1 =~= (head + d1 + tail).subrange(head.len() as int, (head.len() + d1.len()) as int));
                assert(d2 =~= (head + d2 + tail).subrange(head.len() as int, (head.len() + d2.len()) as int));
            },
            None => {
                assert(copy_name(path, n1) =~= head + d1);
                assert(copy_name(path, n2) =~= head + d2);
                assert(d1 =~= (head + d1).skip(head.len() as int));
                assert(d2 =~= (head + d2).skip(head.len() as int));
            },
        }
        crate::text::lemma_dec_injective(n1, n2);
    }
}

/// The parent directory of `path`, `.` when it has none.
pub open spec fn parent_or_dot(path: Seq<char>) -> Seq<char> {
    match crate::paths::path_parent(path) {
        Some(p) => p,
        None => "."@,
    }
}

/// The `n`th candidate name for a copy of `path` that must not collide: the candidate
/// path, and the `.trashinfo` sibling that must not exist either.
pub fn copy_candidate(path: &str, n: u64) -> (r: (String, String))
    ensures
        r.0@ == crate::paths::path_join(parent_or_dot(path@), copy_name(path@, n as nat)),
        r.1@ == crate::paths::path_join(parent_or_dot(path@), copy_name(path@, n as nat) + ".trashinfo"@),
{
    let parent = match crate::paths::parent(path) {
        Some(p) => p,
        None => ".".to_owned(),
    };
    let mut name = match crate::paths::file_stem(path) {
        Some(s) => s,
        None => "copy".to_owned(),
    };
    push_str(&mut name, " copy ");
    crate::text::push_dec(&mut name, n);
    match crate::paths::extension(path) {
        Some(e) => {
            push_str(&mut name, ".");
            push_str(&mut name, e.as_str());
        },
        None => {},
    }
    let candidate = crate::paths::join(parent.as_str(), name.as_str());
    let mut info = name.clone();
    push_str(&mut info, ".trashinfo");
    let sidecar = crate::paths::join(parent.as_str(), info.as_str());
    (candidate, sidecar)
}


/// Where a paste into `to` goes: `to` itself when nothing is there (`Ok`), else the
/// search for a free copy name starts at number 1 (`Err(1)`).
pub fn paste_target(to: &str, exists: bool) -> (r: Result<String, u64>)
    ensures
        exists ==> r == Err::<String, u64>(1),
        !exists ==> (r matches Ok(t) && t@ == to@),
{
    if exists {
        Err(1)
    } else {
        Ok(to.to_owned())
    }
}

/// One step of the search for a free copy name of `path`: the `n`th candidate is taken
/// when neither it nor its `.trashinfo` sibling exists (`taken`, `sidecar_taken`);
/// otherwise the search goes on with number `n + 1`.
pub fn copy_step(path: &str, n: u64, taken: bool, sidecar_taken: bool) -> (r: Result<String, u64>)
    requires
        n < u64::MAX,
    ensures
        (taken || sidecar_taken) ==> r == Err::<String, u64>((n + 1) as u64),
        !(taken || sidecar_taken) ==> (r matches Ok(c) && c@ == crate::paths::path_join(
            parent_or_dot(path@),
            copy_name(path@, n as nat),
        )),
{
    if taken || sidecar_taken {
        Err(n + 1)
    } else {
        let (candidate, _) = copy_candidate(path, n);
        Ok(candidate)
    }
}

} // verus!
