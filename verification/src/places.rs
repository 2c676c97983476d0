//! Places: the favorites file (one TOML string array), the user folders, and the
//! names and icons the sidebar shows for folders.
use vstd::prelude::*;

use crate::paths::{join, same_path, file_name, parent};
use crate::text::{chars_of, is_whitespace, push_char, push_str, string_of};

verus! {

/// Where the array scanner stands.
pub enum Scan {
    /// Between values: white space and commas are skipped.
    Between,
    /// Inside a line of unexpected content, up to its line feed.
    SkipLine,
    /// Inside a quoted value.
    Quote,
    /// Just after a backslash inside a quoted value.
    Escape,
}

/// The character an escape `\c` stands for: `\n` and `\t` are line feed and tab,
/// any other character stands for itself.
pub open spec fn unescape(c: char) -> char {
    if c == 'n' {
        '\n'
    } else if c == 't' {
        '\t'
    } else {
        c
    }
}

/// The values read from `t` from index `i` on, in state `st`, with `v` the value being
/// read and `out` those already read. A `]` between values ends the array; a quoted
/// value still open at the end of the text makes the content broken, and broken
/// content gives no values at all.
pub open spec fn scan(t: Seq<char>, i: int, st: Scan, v: Seq<char>, out: Seq<Seq<char>>) -> Seq<Seq<char>>
    decreases t.len() - i,
{
    if i < 0 || i >= t.len() {
        if st is Quote || st is Escape {
            Seq::empty()
        } else {
            out
        }
    } else {
        let c = t[i];
        match st {
            Scan::Between => if crate::text::is_ws(c) || c == ',' {
                scan(t, i + 1, Scan::Between, v, out)
            } else if c == ']' {
                out
            } else if c == '"' {
                scan(t, i + 1, Scan::Quote, Seq::empty(), out)
            } else {
                scan(t, i + 1, Scan::SkipLine, v, out)
            },
            Scan::SkipLine => if c == '\n' {
                scan(t, i + 1, Scan::Between, v, out)
            } else {
                scan(t, i + 1, Scan::SkipLine, v, out)
            },
            Scan::Quote => if c == '\\' {
                scan(t, i + 1, Scan::Escape, v, out)
            } else if c == '"' {
                scan(t, i + 1, Scan::Between, v, out.push(v))
            } else {
                scan(t, i + 1, Scan::Quote, v.push(c), out)
            },
            Scan::Escape => scan(t, i + 1, Scan::Quote, v.push(unescape(c)), out),
        }
    }
}

/// First index at or after `i` where `key` occurs in `t`.
pub open spec fn find_sub(t: Seq<char>, key: Seq<char>, i: int) -> Option<int>
    decreases t.len() + 1 - i,
{
    if i < 0 || i + key.len() > t.len() {
        None
    } else if t.subrange(i, i + key.len()) == key {
        Some(i)
    } else {
        find_sub(t, key, i + 1)
    }
}

/// First index at or after `i` that holds `c`.
pub open spec fn find_char(t: Seq<char>, c: char, i: int) -> Option<int>
    decreases t.len() - i,
{
    if i < 0 || i >= t.len() {
        None
    } else if t[i] == c {
        Some(i)
    } else {
        find_char(t, c, i + 1)
    }
}

/// The string array under `key`: found at the first occurrence of `key`, starting
/// after the first `[` from there; empty when either is missing.
pub open spec fn string_array(t: Seq<char>, key: Seq<char>) -> Seq<Seq<char>> {
    match find_sub(t, key, 0) {
        None => Seq::empty(),
        Some(k) => match find_char(t, '[', k) {
            None => Seq::empty(),
            Some(b) => scan(t, b + 1, Scan::Between, Seq::empty(), Seq::empty()),
        },
    }
}

fn starts_with_at(t: &Vec<char>, i: usize, key: &Vec<char>) -> (r: bool)
    requires
        i + key@.len() <= t@.len(),
    ensures
        r == (t@.subrange(i as int, i + key@.len()) == key@),
{
    let mut j: usize = 0;
    while j < key.len()
        invariant
            j <= key@.len(),
            i + key@.len() <= t@.len(),
            forall|q: int| 0 <= q < j ==> t@[i + q] == key@[q],
        decreases key.len() - j,
    {
        assert(i + j < t@.len() && t@.len() == t.len());
        if t[i + j] != key[j] {
            assert(t@.subrange(i as int, i + key@.len())[j as int] != key@[j as int]);
            return false;
        }
        j += 1;
    }
    assert(t@.subrange(i as int, i + key@.len()) =~= key@);
    true
}

/// Index of the first occurrence of `k` in `t`.
fn first_occurrence(t: &Vec<char>, k: &Vec<char>) -> (r: Option<usize>)
    ensures
        match r {
            Some(i) => find_sub(t@, k@, 0) == Some(i as int) && i + k@.len() <= t@.len(),
            None => find_sub(t@, k@, 0) is None,
        },
{
    if k.len() > t.len() {
        return None;
    }
    let last = t.len() - k.len();
    let mut i: usize = 0;
    while i <= last
        invariant
            i <= last + 1,
            last + k@.len() == t@.len(),
            find_sub(t@, k@, 0) == find_sub(t@, k@, i as int),
        decreases last + 1 - i,
    {
        if starts_with_at(t, i, k) {
            return Some(i);
        }
        if i == last {
            assert(find_sub(t@, k@, i + 1) is None);
            return None;
        }
        i += 1;
    }
    None
}

/// Reads the `key = [ "a", "b" ]` string array of `text`. Lines of unexpected content
/// are skipped; a quoted value left open makes the content broken, which gives no
/// values; never an error.
pub fn parse_string_array(text: &str, key: &str) -> (r: Vec<String>)
    ensures
        r@.map_values(|s: String| s@) == string_array(text@, key@),
{
    let t = chars_of(text);
    let k = chars_of(key);
    let mut out: Vec<String> = Vec::new();
    let i = match first_occurrence(&t, &k) {
        Some(i) => i,
        None => {
            assert(out@.map_values(|s: String| s@) =~= Seq::<Seq<char>>::empty());
            return out;
        },
    };
    let mut b: usize = i;
    while b < t.len() && t[b] != '['
        invariant
            i <= b <= t@.len(),
            find_char(t@, '[', i as int) == find_char(t@, '[', b as int),
        decreases t.len() - b,
    {
        b += 1;
    }
    if b >= t.len() {
        assert(out@.map_values(|s: String| s@) =~= Seq::<Seq<char>>::empty());
        return out;
    }
    let mut p: usize = b + 1;
    let mut st = Scan::Between;
    let mut v: Vec<char> = Vec::new();
    let ghost goal = scan(t@, p as int, Scan::Between, Seq::empty(), Seq::empty());
    assert(out@.map_values(|s: String| s@) =~= Seq::<Seq<char>>::empty());
    assert(v@ =~= Seq::<char>::empty());
    while p < t.len()
        invariant
            p <= t@.len(),
            scan(t@, p as int, st, v@, out@.map_values(|s: String| s@)) == goal,
        decreases t.len() - p,
    {
        let c = t[p];
        let mut stop = false;
        let ghost before = out@.map_values(|s: String| s@);
        match st {
            Scan::Between => {
                if is_whitespace(c) || c == ',' {
                } else if c == ']' {
                    stop = true;
                } else if c == '"' {
                    st = Scan::Quote;
                    v = Vec::new();
                    assert(v@ =~= Seq::<char>::empty());
                } else {
                    st = Scan::SkipLine;
                }
            },
            Scan::SkipLine => {
                if c == '\n' {
                    st = Scan::Between;
                }
            },
            Scan::Quote => {
                if c == '\\' {
                    st = Scan::Escape;
                } else if c == '"' {
                    let value = string_of(&v);
                    out.push(value);
                    assert(out@.map_values(|s: String| s@) =~= before.push(v@));
                    st = Scan::Between;
                } else {
                    v.push(c);
                }
            },
            Scan::Escape => {
                let e = if c == 'n' {
                    '\n'
                } else if c == 't' {
                    '\t'
                } else {
                    c
                };
                v.push(e);
                st = Scan::Quote;
            },
        }
        p = if stop {
            t.len()
        } else {
            p + 1
        };
    }
    match st {
        Scan::Quote | Scan::Escape => {
            let none: Vec<String> = Vec::new();
            assert(none@.map_values(|s: String| s@) =~= Seq::<Seq<char>>::empty());
            none
        },
        _ => out,
    }
}

/// A character as it is written inside a quoted value.
pub open spec fn escape_char(c: char) -> Seq<char> {
    if c == '\\' {
        seq!['\\', '\\']
    } else if c == '"' {
        seq!['\\', '"']
    } else if c == '\n' {
        seq!['\\', 'n']
    } else if c == '\t' {
        seq!['\\', 't']
    } else {
        seq![c]
    }
}

/// A value as it is written inside quotes: backslashes, quotes, line feeds and tabs
/// escaped.
pub open spec fn escaped(s: Seq<char>) -> Seq<char>
    decreases s.len(),
{
    if s.len() == 0 {
        Seq::empty()
    } else {
        escape_char(s[0]) + escaped(s.drop_first())
    }
}

/// The line for one value: two spaces, the quoted escaped value, a comma.
pub open spec fn value_line(v: Seq<char>) -> Seq<char> {
    seq![' ', ' ', '"'] + escaped(v) + seq!['"', ',', '\n']
}

/// The lines for a list of values, in order.
pub open spec fn value_lines(vs: Seq<Seq<char>>) -> Seq<char>
    decreases vs.len(),
{
    if vs.len() == 0 {
        Seq::empty()
    } else {
        value_line(vs[0]) + value_lines(vs.drop_first())
    }
}

/// The text of a string array under `key`, one value per line.
pub open spec fn rendered_array(key: Seq<char>, vs: Seq<Seq<char>>) -> Seq<char> {
    key + seq![' ', '=', ' ', '[', '\n'] + value_lines(vs) + seq![']', '\n']
}

proof fn lemma_between_any_value(t: Seq<char>, p: int, st: Scan, v1: Seq<char>, v2: Seq<char>, out: Seq<Seq<char>>)
    requires
        st is Between || st is SkipLine,
    ensures
        scan(t, p, st, v1, out) == scan(t, p, st, v2, out),
    decreases t.len() - p,
{
    if 0 <= p < t.len() {
        let c = t[p];
        match st {
            Scan::Between => {
                if crate::text::is_ws(c) || c == ',' {
                    lemma_between_any_value(t, p + 1, Scan::Between, v1, v2, out);
                } else if c == ']' || c == '"' {
                } else {
                    lemma_between_any_value(t, p + 1, Scan::SkipLine, v1, v2, out);
                }
            },
            Scan::SkipLine => {
                if c == '\n' {
                    lemma_between_any_value(t, p + 1, Scan::Between, v1, v2, out);
                } else {
                    lemma_between_any_value(t, p + 1, Scan::SkipLine, v1, v2, out);
                }
            },
            _ => {},
        }
    }
}

proof fn lemma_scan_escaped(t: Seq<char>, p: int, v: Seq<char>, acc: Seq<char>, out: Seq<Seq<char>>)
    requires
        0 <= p,
        p + escaped(v).len() <= t.len(),
        t.subrange(p, p + escaped(v).len()) == escaped(v),
    ensures
        scan(t, p, Scan::Quote, acc, out) == scan(t, p + escaped(v).len(), Scan::Quote, acc + v, out),
    decreases v.len(),
{
    if v.len() == 0 {
        assert(acc + v =~= acc);
    } else {
        let c = v[0];
        let e = escape_char(c);
        let rest = v.drop_first();
        assert(escaped(v) == e + escaped(rest));
        let n = e.len() as int;
        assert(t[p] == escaped(v)[0]);
        assert(t.subrange(p + n, p + n + escaped(rest).len()) =~= escaped(rest)) by {
            assert forall|q: int| 0 <= q < escaped(rest).len() implies t[p + n + q] == escaped(rest)[q] by {
                assert(t.subrange(p, p + escaped(v).len())[n + q] == escaped(v)[n + q]);
            }
        }
        if n == 2 {
            assert(t[p + 1] == escaped(v)[1]);
            assert(scan(t, p + 1, Scan::Escape, acc, out) == scan(t, p + 2, Scan::Quote, acc.push(unescape(t[p + 1])), out));
            assert(unescape(t[p + 1]) == c);
        } else {
            assert(scan(t, p, Scan::Quote, acc, out) == scan(t, p + 1, Scan::Quote, acc.push(c), out));
        }
        lemma_scan_escaped(t, p + n, rest, acc.push(c), out);
        assert(acc.push(c) + rest =~= acc + v);
    }
}

proof fn lemma_scan_lines(t: Seq<char>, p: int, vs: Seq<Seq<char>>, v: Seq<char>, out: Seq<Seq<char>>)
    requires
        0 <= p,
        p + value_lines(vs).len() <= t.len(),
        t.subrange(p, p + value_lines(vs).len()) == value_lines(vs),
    ensures
        scan(t, p, Scan::Between, v, out) == scan(t, p + value_lines(vs).len(), Scan::Between, Seq::empty(), out + vs),
    decreases vs.len(),
{
    if vs.len() == 0 {
        lemma_between_any_value(t, p, Scan::Between, v, Seq::empty(), out);
        assert(out + vs =~= out);
    } else {
        let x = vs[0];
        let rest = vs.drop_first();
        let line = value_line(x);
        let e = escaped(x).len() as int;
        assert(value_lines(vs) == line + value_lines(rest));
        let n = line.len() as int;
        assert(n == e + 6);
        assert forall|q: int| 0 <= q < value_lines(vs).len() implies t[p + q] == value_lines(vs)[q] by {
            assert(t.subrange(p, p + value_lines(vs).len())[q] == value_lines(vs)[q]);
        }
        assert(t[p] == ' ' && t[p + 1] == ' ' && t[p + 2] == '"') by {
            assert(line[0] == ' ' && line[1] == ' ' && line[2] == '"');
            assert(value_lines(vs)[0] == line[0]);
            assert(value_lines(vs)[1] == line[1]);
            assert(value_lines(vs)[2] == line[2]);
        }
        assert(t[p + 3 + e] == '"' && t[p + 4 + e] == ',' && t[p + 5 + e] == '\n') by {
            assert(line[3 + e] == '"' && line[4 + e] == ',' && line[5 + e] == '\n');
            assert(value_lines(vs)[3 + e] == line[3 + e]);
            assert(value_lines(vs)[4 + e] == line[4 + e]);
            assert(value_lines(vs)[5 + e] == line[5 + e]);
        }
        assert(t.subrange(p + 3, p + 3 + e) =~= escaped(x)) by {
            assert forall|q: int| 0 <= q < e implies t[p + 3 + q] == escaped(x)[q] by {
                assert(line[3 + q] == escaped(x)[q]);
                assert(value_lines(vs)[3 + q] == line[3 + q]);
            }
        }
        assert(t.subrange(p + n, p + n + value_lines(rest).len()) =~= value_lines(rest)) by {
            assert forall|q: int| 0 <= q < value_lines(rest).len() implies t[p + n + q] == value_lines(rest)[q] by {
                assert(value_lines(vs)[n + q] == value_lines(rest)[q]);
            }
        }
        assert(crate::text::is_ws(' ') && crate::text::is_ws('\n'));
        assert(scan(t, p, Scan::Between, v, out) == scan(t, p + 1, Scan::Between, v, out));
        assert(scan(t, p + 1, Scan::Between, v, out) == scan(t, p + 2, Scan::Between, v, out));
        assert(scan(t, p + 2, Scan::Between, v, out) == scan(t, p + 3, Scan::Quote, Seq::empty(), out));
        lemma_scan_escaped(t, p + 3, x, Seq::empty(), out);
        assert(Seq::<char>::empty() + x =~= x);
        assert(scan(t, p + 3 + e, Scan::Quote, x, out) == scan(t, p + 4 + e, Scan::Between, x, out.push(x)));
        assert(scan(t, p + 4 + e, Scan::Between, x, out.push(x)) == scan(t, p + 5 + e, Scan::Between, x, out.push(x)));
        assert(scan(t, p + 5 + e, Scan::Between, x, out.push(x)) == scan(t, p + n, Scan::Between, x, out.push(x)));
        lemma_scan_lines(t, p + n, rest, x, out.push(x));
        assert(out.push(x) + rest =~= out + vs);
    }
}

/// Reading back the text written for a list of values under a key gives the list
/// again, for every key without `[`.
pub proof fn lemma_string_array_round_trip(key: Seq<char>, vs: Seq<Seq<char>>)
    requires
        forall|i: int| 0 <= i < key.len() ==> key[i] != '[',
    ensures
        string_array(rendered_array(key, vs), key) == vs,
{
    let t = rendered_array(key, vs);
    let k = key.len() as int;
    let lines = value_lines(vs);
    assert(t.subrange(0, k) =~= key);
    assert(find_sub(t, key, 0) == Some(0int));
    assert forall|q: int| 0 <= q < k implies t[q] == key[q] by {}
    assert(t[k] == ' ' && t[k + 1] == '=' && t[k + 2] == ' ' && t[k + 3] == '[' && t[k + 4] == '\n');
    lemma_find_char_skip(t, '[', 0, k + 3);
    assert(find_char(t, '[', 0) == Some(k + 3));
    assert(crate::text::is_ws('\n'));
    assert(t.subrange(k + 5, k + 5 + lines.len()) =~= lines);
    lemma_scan_lines(t, k + 5, vs, Seq::empty(), Seq::empty());
    assert(t[k + 5 + lines.len()] == ']');
    assert(Seq::<Seq<char>>::empty() + vs =~= vs);
}

proof fn lemma_find_char_skip(t: Seq<char>, c: char, i: int, j: int)
    requires
        0 <= i <= j <= t.len(),
        forall|q: int| i <= q < j ==> t[q] != c,
    ensures
        find_char(t, c, i) == find_char(t, c, j),
    decreases j - i,
{
    if i < j {
        lemma_find_char_skip(t, c, i + 1, j);
    }
}

fn push_escaped(out: &mut String, v: &str)
    ensures
        final(out)@ == old(out)@ + escaped(v@),
{
    let cs = chars_of(v);
    let mut i: usize = 0;
    assert(cs@.skip(0) =~= cs@);
    while i < cs.len()
        invariant
            i <= cs@.len(),
            cs@ == v@,
            out@ + escaped(cs@.skip(i as int)) == old(out)@ + escaped(v@),
        decreases cs.len() - i,
    {
        let c = cs[i];
        let ghost before = out@;
        if c == '\\' {
            push_char(out, '\\');
            push_char(out, '\\');
        } else if c == '"' {
            push_char(out, '\\');
            push_char(out, '"');
        } else if c == '\n' {
            push_char(out, '\\');
            push_char(out, 'n');
        } else if c == '\t' {
            push_char(out, '\\');
            push_char(out, 't');
        } else {
            push_char(out, c);
        }
        assert(cs@.skip(i as int).drop_first() =~= cs@.skip(i + 1));
        assert(out@ =~= before + escape_char(c));
        i += 1;
    }
    assert(cs@.skip(i as int) =~= Seq::<char>::empty());
    assert(out@ + Seq::<char>::empty() =~= out@);
}

/// Writes `values` as the string array under `key`.
pub fn render_string_array(key: &str, values: &Vec<String>) -> (r: String)
    ensures
        r@ == rendered_array(key@, values@.map_values(|s: String| s@)),
{
    let ghost vs = values@.map_values(|s: String| s@);
    let mut text = String::new();
    push_str(&mut text, key);
    push_char(&mut text, ' ');
    push_char(&mut text, '=');
    push_char(&mut text, ' ');
    push_char(&mut text, '[');
    push_char(&mut text, '\n');
    let ghost head = text@;
    let mut i: usize = 0;
    assert(vs.skip(0) =~= vs);
    assert(head + value_lines(vs) =~= text@ + value_lines(vs.skip(0)));
    while i < values.len()
        invariant
            i <= values@.len(),
            vs == values@.map_values(|s: String| s@),
            text@ + value_lines(vs.skip(i as int)) == head + value_lines(vs),
        decreases values.len() - i,
    {
        let ghost before = text@;
        push_char(&mut text, ' ');
        push_char(&mut text, ' ');
        push_char(&mut text, '"');
        push_escaped(&mut text, values[i].as_str());
        push_char(&mut text, '"');
        push_char(&mut text, ',');
        push_char(&mut text, '\n');
        assert(vs.skip(i as int).drop_first() =~= vs.skip(i + 1));
        assert(vs.skip(i as int)[0] == values@[i as int]@);
        assert(text@ =~= before + value_line(values@[i as int]@));
        i += 1;
    }
    assert(vs.skip(i as int) =~= Seq::<Seq<char>>::empty());
    push_char(&mut text, ']');
    push_char(&mut text, '\n');
    assert(text@ =~= head + value_lines(vs) + seq![']', '\n']);
    text
}

/// The favorites file in the program's state directory.
pub fn favorites_file(files_dir: &str) -> (r: String)
    ensures
        r@ == crate::paths::path_join(files_dir@, "favorites.toml"@),
{
    join(files_dir, "favorites.toml")
}

/// The favorite folders listed in the text of the favorites file.
pub fn load_favorites(text: &str) -> (r: Vec<String>)
    ensures
        r@.map_values(|s: String| s@) == string_array(text@, "paths"@),
{
    parse_string_array(text, "paths")
}

/// The text of the favorites file for these folders.
pub fn favorites_text(paths: &Vec<String>) -> (r: String)
    ensures
        r@ == rendered_array("paths"@, paths@.map_values(|s: String| s@)),
{
    render_string_array("paths", paths)
}

/// The user folders the sidebar lists.
pub struct XdgDirs {
    pub desktop: String,
    pub documents: String,
    pub downloads: String,
    pub pictures: String,
    pub videos: String,
    pub music: String,
    pub projects: String,
}

/// Which of the Portuguese folder names exist as directories under home:
/// `Documentos`, `Imagens`, `Vídeos`, `Músicas`.
pub struct LocalizedFolders {
    pub documentos: bool,
    pub imagens: bool,
    pub videos: bool,
    pub musicas: bool,
}

impl XdgDirs {
    /// The English layout under `home`, with no existence checks.
    pub fn fallback(home: &str) -> (r: XdgDirs)
        ensures
            r.desktop@ == crate::paths::path_join(home@, "Desktop"@),
            r.documents@ == crate::paths::path_join(home@, "Documents"@),
            r.downloads@ == crate::paths::path_join(home@, "Downloads"@),
            r.pictures@ == crate::paths::path_join(home@, "Pictures"@),
            r.videos@ == crate::paths::path_join(home@, "Videos"@),
            r.music@ == crate::paths::path_join(home@, "Music"@),
            r.projects@ == crate::paths::path_join(home@, "Projects"@),
    {
        XdgDirs {
            desktop: join(home, "Desktop"),
            documents: join(home, "Documents"),
            downloads: join(home, "Downloads"),
            pictures: join(home, "Pictures"),
            videos: join(home, "Videos"),
            music: join(home, "Music"),
            projects: join(home, "Projects"),
        }
    }
}

/// The localized folders whose existence `resolve_xdg` depends on, in the order of
/// `LocalizedFolders`.
pub fn localized_candidates(home: &str) -> (r: Vec<String>)
    ensures
        r@.len() == 4,
        r@[0]@ == crate::paths::path_join(home@, "Documentos"@),
        r@[1]@ == crate::paths::path_join(home@, "Imagens"@),
        r@[2]@ == crate::paths::path_join(home@, "Vídeos"@),
        r@[3]@ == crate::paths::path_join(home@, "Músicas"@),
{
    let mut v: Vec<String> = Vec::new();
    v.push(join(home, "Documentos"));
    v.push(join(home, "Imagens"));
    v.push(join(home, "Vídeos"));
    v.push(join(home, "Músicas"));
    v
}

/// The user folders under `home`: the Portuguese names where those directories exist,
/// the English ones otherwise (Desktop, Downloads and Projects are always English).
pub fn resolve_xdg(home: &str, found: &LocalizedFolders) -> (r: XdgDirs)
    ensures
        r.desktop@ == crate::paths::path_join(home@, "Desktop"@),
        r.documents@ == crate::paths::path_join(home@, if found.documentos { "Documentos"@ } else { "Documents"@ }),
        r.downloads@ == crate::paths::path_join(home@, "Downloads"@),
        r.pictures@ == crate::paths::path_join(home@, if found.imagens { "Imagens"@ } else { "Pictures"@ }),
        r.videos@ == crate::paths::path_join(home@, if found.videos { "Vídeos"@ } else { "Videos"@ }),
        r.music@ == crate::paths::path_join(home@, if found.musicas { "Músicas"@ } else { "Music"@ }),
        r.projects@ == crate::paths::path_join(home@, "Projects"@),
{
    XdgDirs {
        desktop: join(home, "Desktop"),
        documents: if found.documentos { join(home, "Documentos") } else { join(home, "Documents") },
        downloads: join(home, "Downloads"),
        pictures: if found.imagens { join(home, "Imagens") } else { join(home, "Pictures") },
        videos: if found.videos { join(home, "Vídeos") } else { join(home, "Videos") },
        music: if found.musicas { join(home, "Músicas") } else { join(home, "Music") },
        projects: join(home, "Projects"),
    }
}

/// A path's file name, or the whole path when it has none (the root).
pub open spec fn short(path: Seq<char>) -> Seq<char> {
    match crate::paths::path_file_name(path) {
        Some(n) => n,
        None => path,
    }
}

/// Name shown for a folder: `Pasta pessoal` for home, else its short name.
pub open spec fn shown_name(path: Seq<char>, home: Seq<char>) -> Seq<char> {
    if crate::paths::path_same(path, home) {
        "Pasta pessoal"@
    } else {
        short(path)
    }
}

/// A path's file name, or the whole path when it has none.
pub fn short_name(path: &str) -> (r: String)
    ensures
        r@ == short(path@),
{
    match file_name(path) {
        Some(n) => n,
        None => path.to_owned(),
    }
}

/// Name shown for a folder in the location pill and its ancestor list.
pub fn display_name(path: &str, home: &str) -> (r: String)
    ensures
        r@ == shown_name(path@, home@),
{
    if same_path(path, home) {
        "Pasta pessoal".to_owned()
    } else {
        short_name(path)
    }
}

/// Theme icon of a well-known folder under `home`; `folder` for any other.
pub open spec fn folder_icon(path: Seq<char>, home: Seq<char>) -> Seq<char> {
    let j = |n: Seq<char>| crate::paths::path_join(home, n);
    if crate::paths::path_same(path, home) {
        "user-home"@
    } else if crate::paths::path_same(j("Desktop"@), path) {
        "user-desktop"@
    } else if crate::paths::path_same(j("Documents"@), path) {
        "folder-documents"@
    } else if crate::paths::path_same(j("Downloads"@), path) {
        "folder-download"@
    } else if crate::paths::path_same(j("Pictures"@), path) {
        "folder-pictures"@
    } else if crate::paths::path_same(j("Videos"@), path) {
        "folder-videos"@
    } else if crate::paths::path_same(j("Music"@), path) {
        "folder-music"@
    } else {
        "folder"@
    }
}

/// Theme icon for well-known folders under `home`, `folder` everywhere else.
pub fn special_folder_icon(path: &str, home: &str) -> (r: &'static str)
    ensures
        r@ == folder_icon(path@, home@),
{
    if same_path(path, home) {
        return "user-home";
    }
    if same_path(join(home, "Desktop").as_str(), path) {
        return "user-desktop";
    }
    if same_path(join(home, "Documents").as_str(), path) {
        return "folder-documents";
    }
    if same_path(join(home, "Downloads").as_str(), path) {
        return "folder-download";
    }
    if same_path(join(home, "Pictures").as_str(), path) {
        return "folder-pictures";
    }
    if same_path(join(home, "Videos").as_str(), path) {
        return "folder-videos";
    }
    if same_path(join(home, "Music").as_str(), path) {
        return "folder-music";
    }
    "folder"
}

/// Whether an entry is a dotfile (shown dimmed).
pub fn is_dotfile(entry: &crate::fs::Entry) -> (r: bool)
    ensures
        r == (entry.name@.len() > 0 && entry.name@[0] == '.'),
{
    let cs = chars_of(entry.name.as_str());
    cs.len() > 0 && cs[0] == '.'
}

/// Emblem shown over symbolic links.
pub fn symlink_emblem() -> (r: &'static str)
    ensures
        r@ == "emblem-symbolic-link"@,
{
    "emblem-symbolic-link"
}

/// `path` and its ancestors, nearest first, at most `n` of them.
pub open spec fn ancestor_chain(path: Seq<char>, n: nat) -> Seq<Seq<char>>
    decreases n,
{
    if n == 0 {
        Seq::empty()
    } else {
        seq![path] + match crate::paths::path_parent(path) {
            Some(q) => ancestor_chain(q, (n - 1) as nat),
            None => Seq::empty(),
        }
    }
}

/// The folder and its ancestors up to the root, nearest first, at most 65 of them
/// (the location pill's list).
pub fn ancestors(path: &str) -> (r: Vec<String>)
    ensures
        r@.map_values(|s: String| s@) == ancestor_chain(path@, 65),
{
    let mut chain: Vec<String> = Vec::new();
    let mut current: Option<String> = Some(path.to_owned());
    let mut left: usize = 65;
    assert(chain@.map_values(|s: String| s@) + ancestor_chain(path@, 65) =~= ancestor_chain(path@, 65));
    while left > 0 && current.is_some()
        invariant
            left <= 65,
            chain@.map_values(|s: String| s@) + match current {
                Some(c) => ancestor_chain(c@, left as nat),
                None => Seq::empty(),
            } == ancestor_chain(path@, 65),
        decreases left,
    {
        let dir = current.unwrap();
        let ghost before = chain@.map_values(|s: String| s@);
        let up = parent(dir.as_str());
        chain.push(dir);
        assert(chain@.map_values(|s: String| s@) =~= before.push(dir@));
        assert(before.push(dir@) + match up {
            Some(q) => ancestor_chain(q@, (left - 1) as nat),
            None => Seq::empty(),
        } =~= before + ancestor_chain(dir@, left as nat));
        current = up;
        left -= 1;
    }
    proof {
        match current {
            Some(c) => {
                if left == 0 {
                    assert(ancestor_chain(c@, 0) =~= Seq::<Seq<char>>::empty());
                }
            },
            None => {},
        }
    }
    assert(chain@.map_values(|s: String| s@) + Seq::<Seq<char>>::empty() =~= chain@.map_values(|s: String| s@));
    chain
}

/// Where a sidebar row leads.
pub enum Place {
    Dir(String),
    Recents,
    Favorites,
    Network,
}

/// A sidebar row: label, theme icon, where it leads, and whether it is the current
/// folder.
pub struct PlaceRow {
    pub label: String,
    pub icon: String,
    pub target: Place,
    pub current: bool,
}

/// A place as plain values: 0 for a folder (with its path), 1 recents, 2 favorites,
/// 3 network.
pub open spec fn place_view(p: Place) -> (int, Seq<char>) {
    match p {
        Place::Dir(d) => (0, d@),
        Place::Recents => (1, Seq::empty()),
        Place::Favorites => (2, Seq::empty()),
        Place::Network => (3, Seq::empty()),
    }
}

/// A row as plain values.
pub open spec fn row_view(r: PlaceRow) -> (Seq<char>, Seq<char>, (int, Seq<char>), bool) {
    (r.label@, r.icon@, place_view(r.target), r.current)
}

/// The rows as plain values.
pub open spec fn rows_view(v: Seq<PlaceRow>) -> Seq<(Seq<char>, Seq<char>, (int, Seq<char>), bool)> {
    v.map_values(|r: PlaceRow| row_view(r))
}

/// A row for a place; a folder row is current when it is the current folder.
pub open spec fn place_row(label: Seq<char>, icon: Seq<char>, target: (int, Seq<char>), cwd: Seq<char>) -> (
    Seq<char>,
    Seq<char>,
    (int, Seq<char>),
    bool,
) {
    (label, icon, target, target.0 == 0 && crate::paths::path_same(target.1, cwd))
}

/// The fixed rows of the sidebar, in order: home, recents, favorites, network, trash,
/// then the user folders and Projects.
pub open spec fn fixed_rows(home: Seq<char>, trash: Seq<char>, xdg: XdgDirs, cwd: Seq<char>) -> Seq<(Seq<char>, Seq<char>, (int, Seq<char>), bool)> {
    seq![
        place_row("Pasta pessoal"@, "user-home"@, (0int, home), cwd),
        place_row("Recentes"@, "document-open-recent"@, (1int, Seq::empty()), cwd),
        place_row("Favoritos"@, "starred"@, (2int, Seq::empty()), cwd),
        place_row("Rede"@, "network-server"@, (3int, Seq::empty()), cwd),
        place_row("Lixeira"@, "user-trash"@, (0int, trash), cwd),
        place_row("Área de trabalho"@, "user-desktop"@, (0int, xdg.desktop@), cwd),
        place_row("Documentos"@, "folder-documents"@, (0int, xdg.documents@), cwd),
        place_row("Downloads"@, "folder-download"@, (0int, xdg.downloads@), cwd),
        place_row("Imagens"@, "folder-pictures"@, (0int, xdg.pictures@), cwd),
        place_row("Videos"@, "folder-videos"@, (0int, xdg.videos@), cwd),
        place_row("Músicas"@, "folder-music"@, (0int, xdg.music@), cwd),
        place_row("Projects"@, "folder"@, (0int, xdg.projects@), cwd)
    ]
}

fn push_place(rows: &mut Vec<PlaceRow>, label: &str, icon: &str, target: Place, cwd: &str)
    ensures
        rows_view(final(rows)@) == rows_view(old(rows)@).push(place_row(label@, icon@, place_view(target), cwd@)),
{
    let current = match &target {
        Place::Dir(d) => same_path(d.as_str(), cwd),
        _ => false,
    };
    let ghost before = rows_view(rows@);
    rows.push(PlaceRow { label: label.to_owned(), icon: icon.to_owned(), target, current });
    assert(rows_view(rows@) =~= before.push(place_row(label@, icon@, place_view(target), cwd@)));
}

/// The fixed rows of the sidebar for the home folder, the trash folder, the user
/// folders and the current folder.
pub fn fixed_places(home: &str, trash: &str, xdg: &XdgDirs, cwd: &str) -> (r: Vec<PlaceRow>)
    ensures
        rows_view(r@) == fixed_rows(home@, trash@, *xdg, cwd@),
{
    let mut rows: Vec<PlaceRow> = Vec::new();
    assert(rows_view(rows@) =~= Seq::empty());
    push_place(&mut rows, "Pasta pessoal", "user-home", Place::Dir(home.to_owned()), cwd);
    push_place(&mut rows, "Recentes", "document-open-recent", Place::Recents, cwd);
    push_place(&mut rows, "Favoritos", "starred", Place::Favorites, cwd);
    push_place(&mut rows, "Rede", "network-server", Place::Network, cwd);
    push_place(&mut rows, "Lixeira", "user-trash", Place::Dir(trash.to_owned()), cwd);
    push_place(&mut rows, "Área de trabalho", "user-desktop", Place::Dir(xdg.desktop.clone()), cwd);
    push_place(&mut rows, "Documentos", "folder-documents", Place::Dir(xdg.documents.clone()), cwd);
    push_place(&mut rows, "Downloads", "folder-download", Place::Dir(xdg.downloads.clone()), cwd);
    push_place(&mut rows, "Imagens", "folder-pictures", Place::Dir(xdg.pictures.clone()), cwd);
    push_place(&mut rows, "Videos", "folder-videos", Place::Dir(xdg.videos.clone()), cwd);
    push_place(&mut rows, "Músicas", "folder-music", Place::Dir(xdg.music.clone()), cwd);
    push_place(&mut rows, "Projects", "folder", Place::Dir(xdg.projects.clone()), cwd);
    assert(rows_view(rows@) =~= fixed_rows(home@, trash@, *xdg, cwd@));
    rows
}

/// The rows of the user's favorite folders: each by its short name, with a folder icon.
pub open spec fn favorite_rows(favs: Seq<Seq<char>>, cwd: Seq<char>) -> Seq<(Seq<char>, Seq<char>, (int, Seq<char>), bool)> {
    Seq::new(favs.len(), |i: int| place_row(short(favs[i]), "folder"@, (0, favs[i]), cwd))
}

/// The rows of the user's favorite folders.
pub fn favorite_places(favs: &Vec<String>, cwd: &str) -> (r: Vec<PlaceRow>)
    ensures
        rows_view(r@) == favorite_rows(favs@.map_values(|s: String| s@), cwd@),
{
    let ghost fs = favs@.map_values(|s: String| s@);
    let mut rows: Vec<PlaceRow> = Vec::new();
    let mut i: usize = 0;
    while i < favs.len()
        invariant
            i <= favs@.len(),
            fs == favs@.map_values(|s: String| s@),
            rows_view(rows@) == favorite_rows(fs.take(i as int), cwd@),
        decreases favs.len() - i,
    {
        let name = short_name(favs[i].as_str());
        push_place(&mut rows, name.as_str(), "folder", Place::Dir(favs[i].clone()), cwd);
        assert(favorite_rows(fs.take(i + 1), cwd@) =~= favorite_rows(fs.take(i as int), cwd@).push(
            place_row(short(fs[i as int]), "folder"@, (0, fs[i as int]), cwd@),
        ));
        i += 1;
    }
    assert(fs.take(favs@.len() as int) =~= fs);
    rows
}

/// What activating a sidebar row does.
pub enum Tap {
    /// Go to this folder.
    Dir(String),
    /// Say that network browsing is not available.
    Network,
    /// Nothing.
    Nothing,
}

/// Activating a row: a folder row goes there, the favorites row goes to the first
/// favorite (nothing without one), network says it is unavailable, recents does nothing.
pub fn place_tap(target: &Place, favs: &Vec<String>) -> (r: Tap)
    ensures
        match *target {
            Place::Dir(d) => r matches Tap::Dir(p) && p@ == d@,
            Place::Network => r is Network,
            Place::Recents => r is Nothing,
            Place::Favorites => if favs@.len() > 0 {
                r matches Tap::Dir(p) && p@ == favs@[0]@
            } else {
                r is Nothing
            },
        },
{
    match target {
        Place::Dir(d) => Tap::Dir(d.clone()),
        Place::Network => Tap::Network,
        Place::Recents => Tap::Nothing,
        Place::Favorites => if favs.len() > 0 {
            Tap::Dir(favs[0].clone())
        } else {
            Tap::Nothing
        },
    }
}

} // verus!
