//! Image previews with the Kitty terminal graphics protocol: detection, which files
//! can be shown, and the escape sequences that place and remove an image.
use vstd::prelude::*;

use crate::text::{push_char, push_str, push_dec, chars_of, contains_chars, same_str};

verus! {

/// The image number that every placement of this program uses.
pub const IMAGE_NUMBER: u32 = 0x0F11E5;

/// A character with ASCII upper-case letters taken to lower case, as a code point.
pub open spec fn ascii_lower(c: char) -> u32 {
    if 'A' <= c <= 'Z' {
        (c as u32 + 32) as u32
    } else {
        c as u32
    }
}

/// `str::eq_ignore_ascii_case`.
pub open spec fn eq_ignore_ascii_case(a: Seq<char>, b: Seq<char>) -> bool {
    a.len() == b.len() && forall|i: int| 0 <= i < a.len() ==> ascii_lower(#[trigger] a[i]) == ascii_lower(b[i])
}

fn lower_code(c: char) -> (r: u32)
    ensures
        r == ascii_lower(c),
{
    if 'A' <= c && c <= 'Z' {
        c as u32 + 32
    } else {
        c as u32
    }
}

/// Compares two strings, ASCII letters case-insensitively.
pub fn same_ignoring_ascii_case(a: &str, b: &str) -> (r: bool)
    ensures
        r == eq_ignore_ascii_case(a@, b@),
{
    let x = chars_of(a);
    let y = chars_of(b);
    if x.len() != y.len() {
        return false;
    }
    let mut i: usize = 0;
    while i < x.len()
        invariant
            i <= x@.len(),
            x@ == a@,
            y@ == b@,
            x@.len() == y@.len(),
            forall|k: int| 0 <= k < i ==> ascii_lower(#[trigger] x@[k]) == ascii_lower(y@[k]),
        decreases x.len() - i,
    {
        if lower_code(x[i]) != lower_code(y[i]) {
            return false;
        }
        i += 1;
    }
    true
}

/// Whether the graphics protocol is used: an explicit `1`/`true`/`yes` or
/// `0`/`false`/`no` override wins; otherwise a Kitty window id, a `TERM` naming kitty
/// or ghostty, or a `TERM_PROGRAM` of WezTerm or Ghostty (any case) turn it on.
pub open spec fn detected(
    forced: Option<Seq<char>>,
    kitty_window: bool,
    term: Option<Seq<char>>,
    term_program: Option<Seq<char>>,
) -> bool {
    let yes = forced matches Some(f) && (f == "1"@ || f == "true"@ || f == "yes"@);
    let no = forced matches Some(f) && (f == "0"@ || f == "false"@ || f == "no"@);
    if yes {
        true
    } else if no {
        false
    } else {
        kitty_window || (term matches Some(t) && (crate::text::has_sub(t, "kitty"@) || crate::text::has_sub(
            t,
            "ghostty"@,
        ))) || (term_program matches Some(p) && (eq_ignore_ascii_case(p, "wezterm"@)
            || eq_ignore_ascii_case(p, "ghostty"@)))
    }
}

/// The override variable wins over the terminal: `1` forces graphics on and `0`
/// forces them off, whatever else the environment says.
pub proof fn lemma_forced_graphics(kitty_window: bool, term: Option<Seq<char>>, term_program: Option<Seq<char>>)
    ensures
        detected(Some("1"@), kitty_window, term, term_program),
        !detected(Some("0"@), kitty_window, term, term_program),
{
    reveal_strlit("1");
    reveal_strlit("0");
    reveal_strlit("true");
    reveal_strlit("yes");
    assert("0"@[0] != "1"@[0]);
    assert("0"@.len() != "true"@.len() && "0"@.len() != "yes"@.len());
}

/// Whether one of the image extensions (`png`, `jpg`, `jpeg`, `gif`, `webp`, `bmp`,
/// `tif`, `tiff`) matches `ext`, ignoring ASCII case.
pub open spec fn image_extension(ext: Seq<char>) -> bool {
    eq_ignore_ascii_case(ext, "png"@) || eq_ignore_ascii_case(ext, "jpg"@) || eq_ignore_ascii_case(ext, "jpeg"@)
        || eq_ignore_ascii_case(ext, "gif"@) || eq_ignore_ascii_case(ext, "webp"@) || eq_ignore_ascii_case(
        ext,
        "bmp"@,
    ) || eq_ignore_ascii_case(ext, "tif"@) || eq_ignore_ascii_case(ext, "tiff"@)
}

/// Whether a path can be previewed: its extension is an image extension.
pub open spec fn previewable(path: Seq<char>) -> bool {
    match crate::paths::path_extension(path) {
        Some(e) => image_extension(e),
        None => false,
    }
}

/// Whether a path names a PNG file, which is sent as it is.
pub open spec fn is_png(path: Seq<char>) -> bool {
    match crate::paths::path_extension(path) {
        Some(e) => eq_ignore_ascii_case(e, "png"@),
        None => false,
    }
}

/// Image preview state: whether the terminal takes graphics, the last image source
/// shown, and the PNG converted from it, if any.
pub struct KittyPreview {
    supported: bool,
    last_source: Option<String>,
    converted: Option<String>,
}

/// What to do for a render request, before any outside work.
pub enum RenderPlan {
    /// Graphics are off or the area is empty: draw nothing.
    Nothing,
    /// The source cannot be previewed: remove the image and forget the source.
    Forget,
    /// Send this PNG file as it is.
    Direct(String),
    /// The same source (as a path, component by component) as last time: send the
    /// earlier conversion if it still exists.
    Cached(String),
    /// The earlier conversion is gone or was never made: nothing to draw.
    Missing,
    /// Convert the source to PNG first.
    Convert,
}

impl KittyPreview {
    /// Whether terminal graphics are on.
    pub closed spec fn is_supported(&self) -> bool {
        self.supported
    }

    /// The last source shown.
    pub closed spec fn source(&self) -> Option<Seq<char>> {
        crate::paths::opt_chars(self.last_source)
    }

    /// The converted PNG kept for the last source.
    pub closed spec fn conversion(&self) -> Option<Seq<char>> {
        crate::paths::opt_chars(self.converted)
    }

    /// The preview state for what the environment says: the override variable, whether a
    /// Kitty window id is set, `TERM` and `TERM_PROGRAM`.
    pub fn detect(
        forced: Option<String>,
        kitty_window: bool,
        term: Option<String>,
        term_program: Option<String>,
    ) -> (r: KittyPreview)
        ensures
            r.is_supported() == detected(
                crate::paths::opt_chars(forced),
                kitty_window,
                crate::paths::opt_chars(term),
                crate::paths::opt_chars(term_program),
            ),
            r.source() is None,
            r.conversion() is None,
    {
        proof {
            reveal_strlit("1");
            reveal_strlit("true");
            reveal_strlit("yes");
            reveal_strlit("0");
            reveal_strlit("false");
            reveal_strlit("no");
        }
        let mut decided: Option<bool> = None;
        if let Some(f) = &forced {
            let fs = f.as_str();
            if same_str(fs, "1") || same_str(fs, "true") || same_str(fs, "yes") {
                decided = Some(true);
            } else if same_str(fs, "0") || same_str(fs, "false") || same_str(fs, "no") {
                decided = Some(false);
            }
        }
        let supported = match decided {
            Some(v) => v,
            None => {
                let by_term = match &term {
                    Some(t) => {
                        let tc = chars_of(t.as_str());
                        let k = chars_of("kitty");
                        let g = chars_of("ghostty");
                        contains_chars(&tc, &k) || contains_chars(&tc, &g)
                    },
                    None => false,
                };
                let by_program = match &term_program {
                    Some(p) => same_ignoring_ascii_case(p.as_str(), "wezterm") || same_ignoring_ascii_case(
                        p.as_str(),
                        "ghostty",
                    ),
                    None => false,
                };
                kitty_window || by_term || by_program
            },
        };
        KittyPreview { supported, last_source: None, converted: None }
    }

    /// Whether terminal graphics are on.
    pub fn supported(&self) -> (r: bool)
        ensures
            r == self.is_supported(),
    {
        self.supported
    }

    /// Whether `path` has an image extension.
    pub fn can_preview(path: &str) -> (r: bool)
        ensures
            r == previewable(path@),
    {
        match crate::paths::extension(path) {
            Some(e) => is_image_extension(e.as_str()),
            None => false,
        }
    }

    /// Decides what a render request needs, given the image source and the size of the
    /// area in cells.
    pub fn plan(&self, source: Option<&str>, cols: u16, rows: u16) -> (r: RenderPlan)
        ensures
            !self.is_supported() || cols == 0 || rows == 0 ==> r is Nothing,
            self.is_supported() && cols > 0 && rows > 0 ==> match source {
                None => r is Forget,
                Some(s) => if !previewable(s@) {
                    r is Forget
                } else if is_png(s@) {
                    r matches RenderPlan::Direct(p) && p@ == s@
                } else if self.source() matches Some(l) && crate::paths::path_same(l, s@) {
                    match self.conversion() {
                        Some(c) => r matches RenderPlan::Cached(p) && p@ == c,
                        None => r is Missing,
                    }
                } else {
                    r is Convert
                },
            },
    {
        if !self.supported || cols == 0 || rows == 0 {
            return RenderPlan::Nothing;
        }
        let s = match source {
            Some(s) => s,
            None => return RenderPlan::Forget,
        };
        if !Self::can_preview(s) {
            return RenderPlan::Forget;
        }
        let png = match crate::paths::extension(s) {
            Some(e) => same_ignoring_ascii_case(e.as_str(), "png"),
            None => false,
        };
        if png {
            return RenderPlan::Direct(s.to_owned());
        }
        let same = match &self.last_source {
            Some(last) => crate::paths::same_path(last.as_str(), s),
            None => false,
        };
        if same {
            match &self.converted {
                Some(c) => RenderPlan::Cached(c.clone()),
                None => RenderPlan::Missing,
            }
        } else {
            RenderPlan::Convert
        }
    }

    /// Forgets the last source (after a request that shows nothing).
    pub fn forget(&mut self)
        ensures
            final(self).is_supported() == old(self).is_supported(),
            final(self).source() is None,
            final(self).conversion() == old(self).conversion(),
    {
        self.last_source = None;
    }

    /// Keeps a new conversion and hands back the earlier one, whose file is to go.
    pub fn keep_conversion(&mut self, converted: String) -> (old_file: Option<String>)
        ensures
            final(self).is_supported() == old(self).is_supported(),
            final(self).source() == old(self).source(),
            final(self).conversion() == Some(converted@),
            crate::paths::opt_chars(old_file) == old(self).conversion(),
    {
        let previous = self.converted.take();
        self.converted = Some(converted);
        previous
    }

    /// Records that the image for `source` was placed.
    pub fn shown(&mut self, source: &str)
        ensures
            final(self).is_supported() == old(self).is_supported(),
            final(self).source() == Some(source@),
            final(self).conversion() == old(self).conversion(),
    {
        self.last_source = Some(source.to_owned());
    }

    /// Turns graphics off and hands back the converted file, whose file is to go.
    pub fn shutdown(&mut self) -> (old_file: Option<String>)
        ensures
            !final(self).is_supported(),
            final(self).source() == old(self).source(),
            final(self).conversion() is None,
            crate::paths::opt_chars(old_file) == old(self).conversion(),
    {
        self.supported = false;
        self.converted.take()
    }
}

/// Whether `ext` is one of the image extensions, ignoring ASCII case.
fn is_image_extension(ext: &str) -> (r: bool)
    ensures
        r == image_extension(ext@),
{
    same_ignoring_ascii_case(ext, "png") || same_ignoring_ascii_case(ext, "jpg") || same_ignoring_ascii_case(
        ext,
        "jpeg",
    ) || same_ignoring_ascii_case(ext, "gif") || same_ignoring_ascii_case(ext, "webp")
        || same_ignoring_ascii_case(ext, "bmp") || same_ignoring_ascii_case(ext, "tif")
        || same_ignoring_ascii_case(ext, "tiff")
}

/// The base64 alphabet character for a six-bit value.
pub open spec fn b64_char(v: nat) -> char {
    if v < 26 {
        (65 + v) as char
    } else if v < 52 {
        (97 + v - 26) as char
    } else if v < 62 {
        (48 + v - 52) as char
    } else if v == 62 {
        '+'
    } else {
        '/'
    }
}

/// Standard base64 with `=` padding.
pub open spec fn base64_text(bs: Seq<u8>) -> Seq<char>
    decreases bs.len(),
{
    if bs.len() == 0 {
        Seq::empty()
    } else {
        let a = bs[0] as nat;
        let b: nat = if bs.len() > 1 { bs[1] as nat } else { 0 };
        let c: nat = if bs.len() > 2 { bs[2] as nat } else { 0 };
        let quad = seq![
            b64_char(a / 4),
            b64_char((a % 4) * 16 + b / 16),
            if bs.len() > 1 { b64_char((b % 16) * 4 + c / 64) } else { '=' },
            if bs.len() > 2 { b64_char(c % 64) } else { '=' },
        ];
        if bs.len() <= 3 {
            quad
        } else {
            quad + base64_text(bs.skip(3))
        }
    }
}

fn b64(v: u8) -> (c: char)
    requires
        v < 64,
    ensures
        c == b64_char(v as nat),
{
    if v < 26 {
        (65 + v) as char
    } else if v < 52 {
        (97 + v - 26) as char
    } else if v < 62 {
        (48 + v - 52) as char
    } else if v == 62 {
        '+'
    } else {
        '/'
    }
}

/// Base64 encoding of `bytes`, with `=` padding.
pub fn base64(bytes: &[u8]) -> (r: String)
    ensures
        r@ == base64_text(bytes@),
{
    let mut out = String::new();
    let mut i: usize = 0;
    assert(bytes@.skip(0) =~= bytes@);
    assert(out@ + base64_text(bytes@) =~= base64_text(bytes@));
    while i < bytes.len()
        invariant
            i <= bytes@.len(),
            out@ + base64_text(bytes@.skip(i as int)) == base64_text(bytes@),
        decreases bytes.len() - i,
    {
        let rest = bytes.len() - i;
        let a = bytes[i];
        let b: u8 = if rest > 1 { bytes[i + 1] } else { 0 };
        let c: u8 = if rest > 2 { bytes[i + 2] } else { 0 };
        let ghost before = out@;
        let ghost tail = bytes@.skip(i as int);
        push_char(&mut out, b64(a / 4));
        push_char(&mut out, b64((a % 4) * 16 + b / 16));
        if rest > 1 {
            push_char(&mut out, b64((b % 16) * 4 + c / 64));
        } else {
            push_char(&mut out, '=');
        }
        if rest > 2 {
            push_char(&mut out, b64(c % 64));
        } else {
            push_char(&mut out, '=');
        }
        proof {
            assert(tail[0] == a);
            assert(rest > 1 ==> tail[1] == b);
            assert(rest > 2 ==> tail[2] == c);
            if rest <= 3 {
                assert(bytes@.skip(i + rest) =~= Seq::<u8>::empty());
            } else {
                assert(tail.skip(3) =~= bytes@.skip(i + 3));
            }
        }
        i = if rest > 3 { i + 3 } else { bytes.len() };
        assert(before + base64_text(tail) =~= out@ + base64_text(bytes@.skip(i as int)));
    }
    assert(out@ + Seq::<char>::empty() =~= out@);
    out
}

/// The escape sequence that places the PNG file at `absolute` (given by its path,
/// base64-encoded) over `cols`×`rows` cells without moving the cursor.
pub open spec fn image_command_text(absolute: Seq<char>, cols: nat, rows: nat) -> Seq<char> {
    seq!['\x1b'] + "_Ga=T,f=100,t=f,I="@ + crate::text::dec(IMAGE_NUMBER as nat) + ",p=1,c="@
        + crate::text::dec(cols) + ",r="@ + crate::text::dec(rows) + ",C=1,q=2;"@ + base64_text(
        vstd::utf8::encode_utf8(absolute),
    ) + seq!['\x1b', '\\']
}

/// The escape sequence that places the image file at `absolute`.
pub fn image_command(absolute: &str, cols: u16, rows: u16) -> (r: String)
    ensures
        r@ == image_command_text(absolute@, cols as nat, rows as nat),
{
    let mut out = String::new();
    push_char(&mut out, '\x1b');
    push_str(&mut out, "_Ga=T,f=100,t=f,I=");
    push_dec(&mut out, IMAGE_NUMBER as u64);
    push_str(&mut out, ",p=1,c=");
    push_dec(&mut out, cols as u64);
    push_str(&mut out, ",r=");
    push_dec(&mut out, rows as u64);
    push_str(&mut out, ",C=1,q=2;");
    let payload = base64(absolute.as_bytes());
    push_str(&mut out, payload.as_str());
    push_char(&mut out, '\x1b');
    push_char(&mut out, '\\');
    out
}

/// The escape sequence that removes the image placement.
pub open spec fn delete_command_text() -> Seq<char> {
    seq!['\x1b'] + "_Ga=d,d=N,I="@ + crate::text::dec(IMAGE_NUMBER as nat) + ",p=1,q=2"@ + seq!['\x1b', '\\']
}

/// The escape sequence that removes the image placement.
pub fn delete_command() -> (r: String)
    ensures
        r@ == delete_command_text(),
{
    let mut out = String::new();
    push_char(&mut out, '\x1b');
    push_str(&mut out, "_Ga=d,d=N,I=");
    push_dec(&mut out, IMAGE_NUMBER as u64);
    push_str(&mut out, ",p=1,q=2");
    push_char(&mut out, '\x1b');
    push_char(&mut out, '\\');
    out
}

/// File name of the converted PNG for a process.
pub open spec fn converted_name(pid: nat) -> Seq<char> {
    "optionfiles-tty-graphics-protocol-"@ + crate::text::dec(pid) + ".png"@
}

/// File name of the converted PNG for process `pid` (in the temporary directory).
pub fn converted_file_name(pid: u32) -> (r: String)
    ensures
        r@ == converted_name(pid as nat),
{
    let mut out = String::new();
    push_str(&mut out, "optionfiles-tty-graphics-protocol-");
    push_dec(&mut out, pid as u64);
    push_str(&mut out, ".png");
    out
}

/// The converter argument that selects the first frame of `source`.
pub fn first_frame(source: &str) -> (r: String)
    ensures
        r@ == source@ + "[0]"@,
{
    let mut out = String::new();
    push_str(&mut out, source);
    push_str(&mut out, "[0]");
    out
}

} // verus!
