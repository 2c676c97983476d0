//! What keys and mouse events do in the terminal browser: the key map, the prompt
//! line, and the outside work each event asks for.
use vstd::prelude::*;

use crate::app::{App, same_but_status, same_but_listing};
use crate::text::{chars_of, push_char, push_str, string_of, trim_chars};
use crate::ui::{Prompt, PromptKind};

verus! {

/// A key, as the terminal reports it.
#[derive(Debug, Clone, Copy, PartialEq, Eq, Structural)]
pub enum Key {
    Char(char),
    Up,
    Down,
    Left,
    Right,
    PageUp,
    PageDown,
    Home,
    End,
    Enter,
    Esc,
    Backspace,
    Delete,
    F(u8),
    Other,
}

/// What a key means while browsing.
#[derive(Debug, Clone, Copy, PartialEq, Eq, Structural)]
pub enum KeyCommand {
    Quit,
    Search,
    Refresh,
    Move(isize),
    First,
    Last,
    Parent,
    Enter,
    Open,
    Edit,
    ToggleHidden,
    CycleSort,
    TogglePreview,
    Home,
    Previous,
    Help,
    Copy,
    Cut,
    Paste,
    NewFolder,
    NewFile,
    Rename,
    Delete,
    Ignore,
}

/// The key map of the browser (`ctrl` tells whether Control was held).
pub open spec fn keymap(k: Key, ctrl: bool) -> KeyCommand {
    match k {
        Key::Esc => KeyCommand::Quit,
        Key::Char(c) => if c == 'q' {
            KeyCommand::Quit
        } else if ctrl && c == 'c' {
            KeyCommand::Quit
        } else if ctrl && c == 'f' {
            KeyCommand::Search
        } else if ctrl && c == 'r' {
            KeyCommand::Refresh
        } else if c == 'k' {
            KeyCommand::Move(-1isize)
        } else if c == 'j' {
            KeyCommand::Move(1isize)
        } else if c == 'g' {
            KeyCommand::First
        } else if c == 'G' {
            KeyCommand::Last
        } else if c == 'h' {
            KeyCommand::Parent
        } else if c == 'l' {
            KeyCommand::Enter
        } else if c == 'o' {
            KeyCommand::Open
        } else if c == 'e' {
            KeyCommand::Edit
        } else if c == 'a' || c == '.' {
            KeyCommand::ToggleHidden
        } else if c == 's' {
            KeyCommand::CycleSort
        } else if c == ' ' {
            KeyCommand::TogglePreview
        } else if c == '/' {
            KeyCommand::Search
        } else if c == '~' {
            KeyCommand::Home
        } else if c == '-' {
            KeyCommand::Previous
        } else if c == '?' {
            KeyCommand::Help
        } else if c == 'c' {
            KeyCommand::Copy
        } else if c == 'x' {
            KeyCommand::Cut
        } else if c == 'v' {
            KeyCommand::Paste
        } else if c == 'n' {
            KeyCommand::NewFolder
        } else if c == 'N' {
            KeyCommand::NewFile
        } else if c == 'r' {
            KeyCommand::Rename
        } else if c == 'd' {
            KeyCommand::Delete
        } else {
            KeyCommand::Ignore
        },
        Key::Up => KeyCommand::Move(-1isize),
        Key::Down => KeyCommand::Move(1isize),
        Key::PageUp => KeyCommand::Move(-10isize),
        Key::PageDown => KeyCommand::Move(10isize),
        Key::Home => KeyCommand::First,
        Key::End => KeyCommand::Last,
        Key::Left => KeyCommand::Parent,
        Key::Backspace => KeyCommand::Parent,
        Key::Enter => KeyCommand::Enter,
        Key::Right => KeyCommand::Enter,
        Key::F(n) => if n == 2 {
            KeyCommand::Rename
        } else if n == 5 {
            KeyCommand::Refresh
        } else {
            KeyCommand::Ignore
        },
        Key::Delete => KeyCommand::Delete,
        Key::Other => KeyCommand::Ignore,
    }
}

/// The letter keys do what the keys they stand for do, with or without Control, as the
/// help lists them: `k` is Up (one entry up), `j` is Down (one entry down), `g` is Home
/// (the first entry), `G` is End (the last entry), `h` is Left and Backspace (the
/// parent), `l` is Right and Enter (enter the selection); Page Up and Page Down move by
/// ten; `q` and Esc quit; `a` and `.` both toggle hidden entries; F2 is `r` (rename).
pub proof fn lemma_key_pairs(ctrl: bool)
    ensures
        keymap(Key::Char('k'), ctrl) == keymap(Key::Up, ctrl),
        keymap(Key::Up, ctrl) == KeyCommand::Move(-1isize),
        keymap(Key::Char('j'), ctrl) == keymap(Key::Down, ctrl),
        keymap(Key::Down, ctrl) == KeyCommand::Move(1isize),
        keymap(Key::Char('g'), ctrl) == keymap(Key::Home, ctrl),
        keymap(Key::Home, ctrl) == KeyCommand::First,
        keymap(Key::Char('G'), ctrl) == keymap(Key::End, ctrl),
        keymap(Key::End, ctrl) == KeyCommand::Last,
        keymap(Key::Char('h'), ctrl) == keymap(Key::Left, ctrl),
        keymap(Key::Backspace, ctrl) == keymap(Key::Left, ctrl),
        keymap(Key::Left, ctrl) == KeyCommand::Parent,
        keymap(Key::Char('l'), ctrl) == keymap(Key::Right, ctrl),
        keymap(Key::Enter, ctrl) == keymap(Key::Right, ctrl),
        keymap(Key::Right, ctrl) == KeyCommand::Enter,
        keymap(Key::PageUp, ctrl) == KeyCommand::Move(-10isize),
        keymap(Key::PageDown, ctrl) == KeyCommand::Move(10isize),
        keymap(Key::Char('q'), ctrl) == keymap(Key::Esc, ctrl),
        keymap(Key::Esc, ctrl) == KeyCommand::Quit,
        keymap(Key::Char('a'), ctrl) == keymap(Key::Char('.'), ctrl),
        keymap(Key::Char('a'), ctrl) == KeyCommand::ToggleHidden,
        keymap(Key::F(2), ctrl) == KeyCommand::Rename,
        !ctrl ==> keymap(Key::Char('r'), ctrl) == KeyCommand::Rename,
        keymap(Key::Char('g'), ctrl) != keymap(Key::Char('G'), ctrl),
{
}

/// The meaning of a key while browsing.
pub fn command_for(k: Key, ctrl: bool) -> (r: KeyCommand)
    ensures
        r == keymap(k, ctrl),
{
    match k {
        Key::Esc => KeyCommand::Quit,
        Key::Char(c) => if c == 'q' {
            KeyCommand::Quit
        } else if ctrl && c == 'c' {
            KeyCommand::Quit
        } else if ctrl && c == 'f' {
            KeyCommand::Search
        } else if ctrl && c == 'r' {
            KeyCommand::Refresh
        } else if c == 'k' {
            KeyCommand::Move(-1)
        } else if c == 'j' {
            KeyCommand::Move(1)
        } else if c == 'g' {
            KeyCommand::First
        } else if c == 'G' {
            KeyCommand::Last
        } else if c == 'h' {
            KeyCommand::Parent
        } else if c == 'l' {
            KeyCommand::Enter
        } else if c == 'o' {
            KeyCommand::Open
        } else if c == 'e' {
            KeyCommand::Edit
        } else if c == 'a' || c == '.' {
            KeyCommand::ToggleHidden
        } else if c == 's' {
            KeyCommand::CycleSort
        } else if c == ' ' {
            KeyCommand::TogglePreview
        } else if c == '/' {
            KeyCommand::Search
        } else if c == '~' {
            KeyCommand::Home
        } else if c == '-' {
            KeyCommand::Previous
        } else if c == '?' {
            KeyCommand::Help
        } else if c == 'c' {
            KeyCommand::Copy
        } else if c == 'x' {
            KeyCommand::Cut
        } else if c == 'v' {
            KeyCommand::Paste
        } else if c == 'n' {
            KeyCommand::NewFolder
        } else if c == 'N' {
            KeyCommand::NewFile
        } else if c == 'r' {
            KeyCommand::Rename
        } else if c == 'd' {
            KeyCommand::Delete
        } else {
            KeyCommand::Ignore
        },
        Key::Up => KeyCommand::Move(-1),
        Key::Down => KeyCommand::Move(1),
        Key::PageUp => KeyCommand::Move(-10),
        Key::PageDown => KeyCommand::Move(10),
        Key::Home => KeyCommand::First,
        Key::End => KeyCommand::Last,
        Key::Left => KeyCommand::Parent,
        Key::Backspace => KeyCommand::Parent,
        Key::Enter => KeyCommand::Enter,
        Key::Right => KeyCommand::Enter,
        Key::F(n) => if n == 2 {
            KeyCommand::Rename
        } else if n == 5 {
            KeyCommand::Refresh
        } else {
            KeyCommand::Ignore
        },
        Key::Delete => KeyCommand::Delete,
        Key::Other => KeyCommand::Ignore,
    }
}

/// Outside work an event asks for; the browser state already holds every change that
/// needs none.
#[derive(Debug)]
pub enum Action {
    /// Nothing more to do.
    Stay,
    /// Leave the browser.
    Quit,
    /// Read the directory again (status `refreshed` when that works).
    Refresh,
    /// Go to the parent directory.
    Parent,
    /// Enter the selection.
    Enter,
    /// Open this path with the system application.
    Open(String),
    /// Edit this path with the user's editor.
    Edit(String),
    ToggleHidden,
    CycleSort,
    /// Apply this filter.
    SetFilter(String),
    GoHome,
    GoPrevious,
    /// Put the selection on the clipboard to be copied.
    Copy,
    /// Put the selection on the clipboard to be moved.
    Cut,
    Paste,
    /// Create a directory with this name.
    CreateDir(String),
    /// Create a file with this name.
    CreateFile(String),
    /// Rename the selection to this name.
    Rename(String),
    /// Move the selection to the trash.
    Delete,
}

/// What a key does with a prompt open: `a2`, `p2` and `r` are the browser state, the
/// prompt and the outside work after it.
pub open spec fn prompt_step(a: App, q: Prompt, k: Key, ctrl: bool, a2: App, p2: Option<Prompt>, r: Action) -> bool {
    match k {
        Key::Esc => a2 == a && p2 is None && r is Stay,
        Key::Enter => p2 is None && match q.kind {
            PromptKind::Folder => r matches Action::CreateDir(n) && n@ == crate::text::trim(q.value@) && a2 == a,
            PromptKind::File => r matches Action::CreateFile(n) && n@ == crate::text::trim(q.value@) && a2 == a,
            PromptKind::Rename => r matches Action::Rename(n) && n@ == crate::text::trim(q.value@) && a2 == a,
            PromptKind::Delete => if crate::kitty::eq_ignore_ascii_case(q.value@, "y"@) {
                a2 == a && r is Delete
            } else {
                r is Stay && same_but_status(a, a2) && a2.status@ == "delete cancelled"@
            },
            PromptKind::Search => r matches Action::SetFilter(f) && f@ == q.value@ && a2 == a,
        },
        Key::Backspace => p2 matches Some(q2) && q2.kind == q.kind && q2.value@ == (if q.value@.len() > 0 {
            q.value@.drop_last()
        } else {
            q.value@
        }) && a2 == a && r is Stay,
        Key::Char(c) => if !ctrl {
            p2 matches Some(q2) && q2.kind == q.kind && q2.value@ == q.value@.push(c) && a2 == a && r is Stay
        } else {
            a2 == a && r is Stay && p2 == Some(q)
        },
        _ => a2 == a && r is Stay && p2 == Some(q),
    }
}

/// What a key does with the help open: `?`, Esc or `q` close it, other keys do nothing.
pub open spec fn help_step(a: App, k: Key, a2: App, r: Action) -> bool {
    &&& r is Stay
    &&& if k == Key::Char('?') || k == Key::Esc || k == Key::Char('q') {
        a2 == App { help: false, ..a }
    } else {
        a2 == a
    }
}

/// What a key does while browsing.
pub open spec fn browse_step(a: App, k: Key, ctrl: bool, a2: App, p2: Option<Prompt>, r: Action) -> bool {
    let cur = if a.selected < a.entries@.len() { Some(a.entries@[a.selected as int]) } else { None };
    match keymap(k, ctrl) {
        KeyCommand::Move(d) => {
            &&& r is Stay && p2 is None
            &&& a2.entries == a.entries && same_but_listing(a, a2)
            &&& a2.selected == if a.entries@.len() == 0 {
                a.selected as int
            } else {
                crate::app::moved(a.selected as int, d as int, a.entries@.len() as int)
            }
        },
        KeyCommand::First => r is Stay && p2 is None && a2 == App { selected: 0, ..a },
        KeyCommand::Last => r is Stay && p2 is None && a2 == App {
            selected: if a.entries@.len() == 0 { 0 } else { (a.entries@.len() - 1) as usize },
            ..a
        },
        KeyCommand::TogglePreview => r is Stay && p2 is None && a2 == App { preview: !a.preview, ..a },
        KeyCommand::Help => r is Stay && p2 is None && a2 == App { help: true, ..a },
        KeyCommand::Search => p2 matches Some(q) && q.kind == PromptKind::Search && q.value@ == a.filter@ && a2 == a
            && r is Stay,
        KeyCommand::NewFolder => p2 matches Some(q) && q.kind == PromptKind::Folder && q.value@.len() == 0 && a2 == a
            && r is Stay,
        KeyCommand::NewFile => p2 matches Some(q) && q.kind == PromptKind::File && q.value@.len() == 0 && a2 == a
            && r is Stay,
        KeyCommand::Delete => p2 matches Some(q) && q.kind == PromptKind::Delete && q.value@.len() == 0 && a2 == a
            && r is Stay,
        KeyCommand::Rename => a2 == a && r is Stay && match cur {
            Some(e) => p2 matches Some(q) && q.kind == PromptKind::Rename && q.value@ == e.name@,
            None => p2 is None,
        },
        KeyCommand::Open => a2 == a && p2 is None && match cur {
            Some(e) => r matches Action::Open(path) && path@ == e.path@,
            None => r is Stay,
        },
        KeyCommand::Edit => a2 == a && p2 is None && match cur {
            Some(e) => r matches Action::Edit(path) && path@ == e.path@,
            None => r is Stay,
        },
        KeyCommand::Quit => a2 == a && p2 is None && r is Quit,
        KeyCommand::Refresh => a2 == a && p2 is None && r is Refresh,
        KeyCommand::Parent => a2 == a && p2 is None && r is Parent,
        KeyCommand::Enter => a2 == a && p2 is None && r is Enter,
        KeyCommand::ToggleHidden => a2 == a && p2 is None && r is ToggleHidden,
        KeyCommand::CycleSort => a2 == a && p2 is None && r is CycleSort,
        KeyCommand::Home => a2 == a && p2 is None && r is GoHome,
        KeyCommand::Previous => a2 == a && p2 is None && r is GoPrevious,
        KeyCommand::Copy => a2 == a && p2 is None && r is Copy,
        KeyCommand::Cut => a2 == a && p2 is None && r is Cut,
        KeyCommand::Paste => a2 == a && p2 is None && r is Paste,
        KeyCommand::Ignore => a2 == a && p2 is None && r is Stay,
    }
}

fn prompt_value(kind: PromptKind, value: String) -> (p: Option<Prompt>)
    ensures
        p matches Some(q) && q.kind == kind && q.value == value,
{
    Some(Prompt { kind, value })
}

/// Handles a key press: edits the open prompt, closes the help, or carries out the
/// key's command; the result names the outside work still to do.
pub fn handle_key(app: &mut App, prompt: &mut Option<Prompt>, k: Key, ctrl: bool) -> (r: Action)
    ensures
        match *old(prompt) {
            Some(q) => prompt_step(*old(app), q, k, ctrl, *final(app), *final(prompt), r),
            None => if old(app).help {
                *final(prompt) is None && help_step(*old(app), k, *final(app), r)
            } else {
                browse_step(*old(app), k, ctrl, *final(app), *final(prompt), r)
            },
        },
{
    if prompt.is_some() {
        let q = prompt.take().unwrap();
        match k {
            Key::Esc => {
                return Action::Stay;
            },
            Key::Enter => {
                return submit(app, q);
            },
            Key::Backspace => {
                let cs = chars_of(q.value.as_str());
                let v = if cs.len() > 0 {
                    let mut d = cs.clone();
                    d.pop();
                    assert(d@ =~= cs@.drop_last());
                    string_of(&d)
                } else {
                    q.value
                };
                *prompt = prompt_value(q.kind, v);
                return Action::Stay;
            },
            Key::Char(c) => {
                if !ctrl {
                    let mut v = q.value;
                    push_char(&mut v, c);
                    *prompt = prompt_value(q.kind, v);
                } else {
                    *prompt = Some(q);
                }
                return Action::Stay;
            },
            _ => {
                *prompt = Some(q);
                return Action::Stay;
            },
        }
    }
    if app.help {
        if k == Key::Char('?') || k == Key::Esc || k == Key::Char('q') {
            app.help = false;
        }
        return Action::Stay;
    }
    match command_for(k, ctrl) {
        KeyCommand::Move(d) => {
            app.move_by(d);
            Action::Stay
        },
        KeyCommand::First => {
            app.home();
            Action::Stay
        },
        KeyCommand::Last => {
            app.end();
            Action::Stay
        },
        KeyCommand::TogglePreview => {
            app.preview = !app.preview;
            Action::Stay
        },
        KeyCommand::Help => {
            app.help = true;
            Action::Stay
        },
        KeyCommand::Search => {
            *prompt = prompt_value(PromptKind::Search, app.filter.clone());
            Action::Stay
        },
        KeyCommand::NewFolder => {
            *prompt = prompt_value(PromptKind::Folder, String::new());
            Action::Stay
        },
        KeyCommand::NewFile => {
            *prompt = prompt_value(PromptKind::File, String::new());
            Action::Stay
        },
        KeyCommand::Delete => {
            *prompt = prompt_value(PromptKind::Delete, String::new());
            Action::Stay
        },
        KeyCommand::Rename => {
            if app.selected < app.entries.len() {
                *prompt = prompt_value(PromptKind::Rename, app.entries[app.selected].name.clone());
            }
            Action::Stay
        },
        KeyCommand::Open => {
            if app.selected < app.entries.len() {
                Action::Open(app.entries[app.selected].path.clone())
            } else {
                Action::Stay
            }
        },
        KeyCommand::Edit => {
            if app.selected < app.entries.len() {
                Action::Edit(app.entries[app.selected].path.clone())
            } else {
                Action::Stay
            }
        },
        KeyCommand::Quit => Action::Quit,
        KeyCommand::Refresh => Action::Refresh,
        KeyCommand::Parent => Action::Parent,
        KeyCommand::Enter => Action::Enter,
        KeyCommand::ToggleHidden => Action::ToggleHidden,
        KeyCommand::CycleSort => Action::CycleSort,
        KeyCommand::Home => Action::GoHome,
        KeyCommand::Previous => Action::GoPrevious,
        KeyCommand::Copy => Action::Copy,
        KeyCommand::Cut => Action::Cut,
        KeyCommand::Paste => Action::Paste,
        KeyCommand::Ignore => Action::Stay,
    }
}

fn trimmed(s: &String) -> (r: String)
    ensures
        r@ == crate::text::trim(s@),
{
    let cs = chars_of(s.as_str());
    let t = trim_chars(&cs);
    string_of(&t)
}

/// Submits a prompt: a name for a new folder, a new file or the selection, a `y` to
/// confirm deletion, or a filter.
fn submit(app: &mut App, q: Prompt) -> (r: Action)
    ensures
        match q.kind {
            PromptKind::Folder => r matches Action::CreateDir(n) && n@ == crate::text::trim(q.value@) && *final(app) == *old(app),
            PromptKind::File => r matches Action::CreateFile(n) && n@ == crate::text::trim(q.value@) && *final(app) == *old(app),
            PromptKind::Rename => r matches Action::Rename(n) && n@ == crate::text::trim(q.value@) && *final(app) == *old(app),
            PromptKind::Delete => if crate::kitty::eq_ignore_ascii_case(q.value@, "y"@) {
                *final(app) == *old(app) && r is Delete
            } else {
                r is Stay && same_but_status(*old(app), *final(app)) && final(app).status@ == "delete cancelled"@
            },
            PromptKind::Search => r matches Action::SetFilter(f) && f@ == q.value@ && *final(app) == *old(app),
        },
{
    match q.kind {
        PromptKind::Folder => Action::CreateDir(trimmed(&q.value)),
        PromptKind::File => Action::CreateFile(trimmed(&q.value)),
        PromptKind::Rename => Action::Rename(trimmed(&q.value)),
        PromptKind::Delete => {
            if crate::kitty::same_ignoring_ascii_case(q.value.as_str(), "y") {
                Action::Delete
            } else {
                let mut status = String::new();
                push_str(&mut status, "delete cancelled");
                app.status = status;
                Action::Stay
            }
        },
        PromptKind::Search => Action::SetFilter(q.value),
    }
}

/// A mouse event, as the terminal reports it.
#[derive(Debug, Clone, Copy, PartialEq, Eq, Structural)]
pub enum Mouse {
    ScrollUp,
    ScrollDown,
    /// A button pressed on this screen row.
    Press(u16),
    Other,
}

/// Handles a mouse event: the wheel moves the selection by three rows, a press on a
/// listed row selects it (rows start on line 5). Ignored while a prompt or the help is
/// open.
pub fn handle_mouse(app: &mut App, prompt_open: bool, m: Mouse)
    requires
        old(app).scroll + 0x10000 <= usize::MAX,
    ensures
        final(app).entries == old(app).entries,
        same_but_listing(*old(app), *final(app)),
        prompt_open || old(app).help ==> final(app).selected == old(app).selected,
        !prompt_open && !old(app).help ==> final(app).selected == match m {
            Mouse::ScrollUp => if old(app).entries@.len() == 0 {
                old(app).selected as int
            } else {
                crate::app::moved(old(app).selected as int, -3, old(app).entries@.len() as int)
            },
            Mouse::ScrollDown => if old(app).entries@.len() == 0 {
                old(app).selected as int
            } else {
                crate::app::moved(old(app).selected as int, 3, old(app).entries@.len() as int)
            },
            Mouse::Press(row) => {
                let i = (if row < 5 { 0 } else { row - 5 }) + old(app).scroll;
                if i < old(app).entries@.len() { i } else { old(app).selected as int }
            },
            Mouse::Other => old(app).selected as int,
        },
{
    if prompt_open || app.help {
        return;
    }
    match m {
        Mouse::ScrollUp => app.move_by(-3),
        Mouse::ScrollDown => app.move_by(3),
        Mouse::Press(row) => {
            let r: usize = if row < 5 { 0 } else { (row - 5) as usize };
            let i = r + app.scroll;
            if i < app.entries.len() {
                app.selected = i;
            }
        },
        Mouse::Other => {},
    }
}

impl App {
    /// Records the outcome of a refresh the user asked for: `refreshed`, or the error.
    pub fn note_refresh(&mut self, outcome: Result<(), String>)
        ensures
            same_but_status(*old(self), *final(self)),
            match outcome {
                Ok(_) => final(self).status@ == "refreshed"@,
                Err(e) => final(self).status == e,
            },
    {
        match outcome {
            Ok(_) => {
                let mut status = String::new();
                push_str(&mut status, "refreshed");
                self.status = status;
            },
            Err(e) => self.status = e,
        }
    }

    /// Shows an operation's error in the status line; success leaves it as it is.
    pub fn note_error(&mut self, outcome: Result<(), String>)
        ensures
            same_but_status(*old(self), *final(self)),
            match outcome {
                Ok(_) => final(self).status == old(self).status,
                Err(e) => final(self).status == e,
            },
    {
        match outcome {
            Ok(_) => {},
            Err(e) => self.status = e,
        }
    }

    /// Records that `path` was handed to the system application (`opened NAME`), or why
    /// that failed.
    pub fn note_opened(&mut self, path: &str, started: Result<(), String>)
        ensures
            same_but_status(*old(self), *final(self)),
            match started {
                Ok(_) => final(self).status@ == "opened "@ + crate::app::shown_file_name(path@),
                Err(e) => final(self).status == e,
            },
    {
        match started {
            Ok(_) => {
                let mut status = String::new();
                push_str(&mut status, "opened ");
                match crate::paths::file_name(path) {
                    Some(n) => push_str(&mut status, n.as_str()),
                    None => {},
                }
                self.status = status;
            },
            Err(e) => self.status = e,
        }
    }

    /// Records that the editor was started on `path` (`editing NAME`), that no editor is
    /// set, or why starting it failed.
    pub fn note_editing(&mut self, path: &str, started: Option<Result<(), String>>)
        ensures
            same_but_status(*old(self), *final(self)),
            match started {
                None => final(self).status@ == "set $EDITOR to edit files"@,
                Some(Ok(_)) => final(self).status@ == "editing "@ + crate::app::shown_file_name(path@),
                Some(Err(e)) => final(self).status == e,
            },
    {
        match started {
            None => {
                let mut status = String::new();
                push_str(&mut status, "set $EDITOR to edit files");
                self.status = status;
            },
            Some(Ok(_)) => {
                let mut status = String::new();
                push_str(&mut status, "editing ");
                match crate::paths::file_name(path) {
                    Some(n) => push_str(&mut status, n.as_str()),
                    None => {},
                }
                self.status = status;
            },
            Some(Err(e)) => self.status = e,
        }
    }
}

/// The editor to run: `EDITOR` when it is set, else `VISUAL`, trimmed; none when that is
/// missing or blank.
pub open spec fn chosen_editor(editor: Option<Seq<char>>, visual: Option<Seq<char>>) -> Option<Seq<char>> {
    let v = match editor {
        Some(e) => Some(e),
        None => visual,
    };
    match v {
        Some(e) => if crate::text::trim(e).len() > 0 { Some(crate::text::trim(e)) } else { None },
        None => None,
    }
}

/// The editor command for the values of `EDITOR` and `VISUAL`.
pub fn editor_command(editor: Option<String>, visual: Option<String>) -> (r: Option<String>)
    ensures
        crate::paths::opt_chars(r) == chosen_editor(crate::paths::opt_chars(editor), crate::paths::opt_chars(visual)),
{
    let v = match editor {
        Some(e) => Some(e),
        None => visual,
    };
    match v {
        Some(e) => {
            let t = trimmed(&e);
            if t.as_str().is_empty() {
                None
            } else {
                Some(t)
            }
        },
        None => None,
    }
}

/// The shell script that runs the editor on its first argument.
pub fn editor_script(editor: &str) -> (r: String)
    ensures
        r@ == editor@ + " \"$1\""@,
{
    let mut out = String::new();
    push_str(&mut out, editor);
    push_str(&mut out, " \"$1\"");
    out
}

} // verus!
