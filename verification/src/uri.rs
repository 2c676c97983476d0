//! `file://` URIs: percent-encoding of paths and decoding of clipboard text.
use vstd::prelude::*;

use crate::text::{push_char, push_str, chars_of, trim_chars, copy_range, string_of};

verus! {

/// Bytes written as they are in a URI path: ASCII letters, digits, `-`, `_`, `.`, `~`, `/`.
pub open spec fn unreserved(b: u8) -> bool {
    (65 <= b <= 90) || (97 <= b <= 122) || (48 <= b <= 57) || b == 45 || b == 95 || b == 46 || b == 126
        || b == 47
}

/// Upper-case hexadecimal digit.
pub open spec fn hex_digit(d: nat) -> char {
    if d < 10 {
        (d + 48) as char
    } else {
        (d + 55) as char
    }
}

/// Percent-encoding of a byte string: unreserved bytes as characters, others as `%XY`.
pub open spec fn percent_encoded(bs: Seq<u8>) -> Seq<char>
    decreases bs.len(),
{
    if bs.len() == 0 {
        Seq::empty()
    } else {
        let b = bs.last();
        percent_encoded(bs.drop_last()) + if unreserved(b) {
            seq![b as char]
        } else {
            seq!['%', hex_digit((b / 16) as nat), hex_digit((b % 16) as nat)]
        }
    }
}

fn hex_char(d: u8) -> (c: char)
    requires
        d < 16,
    ensures
        c == hex_digit(d as nat),
{
    let digits: [char; 16] = ['0', '1', '2', '3', '4', '5', '6', '7', '8', '9', 'A', 'B', 'C', 'D', 'E', 'F'];
    digits[d as usize]
}

/// Percent-encodes bytes for a `file://` URI path.
pub fn percent_encode(bytes: &[u8]) -> (r: String)
    ensures
        r@ == percent_encoded(bytes@),
{
    let mut out = String::new();
    let mut i: usize = 0;
    while i < bytes.len()
        invariant
            i <= bytes@.len(),
            out@ == percent_encoded(bytes@.take(i as int)),
        decreases bytes.len() - i,
    {
        let b = bytes[i];
        proof {
            assert(bytes@.take(i + 1).drop_last() =~= bytes@.take(i as int));
            assert(bytes@.take(i + 1).last() == b);
        }
        let plain = (65 <= b && b <= 90) || (97 <= b && b <= 122) || (48 <= b && b <= 57) || b == 45 || b
            == 95 || b == 46 || b == 126 || b == 47;
        let ghost before = out@;
        if plain {
            push_char(&mut out, b as char);
            assert(out@ =~= before + seq![b as char]);
        } else {
            push_char(&mut out, '%');
            push_char(&mut out, hex_char(b / 16));
            push_char(&mut out, hex_char(b % 16));
            assert(out@ =~= before + seq!['%', hex_digit((b / 16) as nat), hex_digit((b % 16) as nat)]);
        }
        i += 1;
    }
    assert(bytes@.take(bytes@.len() as int) =~= bytes@);
    out
}

/// Value of a hexadecimal digit byte (either case).
pub open spec fn hex_value(b: u8) -> Option<u8> {
    if 48 <= b <= 57 {
        Some((b - 48) as u8)
    } else if 97 <= b <= 102 {
        Some((b - 97 + 10) as u8)
    } else if 65 <= b <= 70 {
        Some((b - 65 + 10) as u8)
    } else {
        None
    }
}

/// The value of a hexadecimal digit, if `b` is one.
pub fn hex(b: u8) -> (r: Option<u8>)
    ensures
        r == hex_value(b),
{
    if 48 <= b && b <= 57 {
        Some(b - 48)
    } else if 97 <= b && b <= 102 {
        Some(b - 97 + 10)
    } else if 65 <= b && b <= 70 {
        Some(b - 65 + 10)
    } else {
        None
    }
}

/// Bytes after decoding `%XY` escapes from index `i` on; a `%` without two hex digits
/// after it stays as it is.
pub open spec fn percent_decoded(bs: Seq<u8>, i: int) -> Seq<u8>
    decreases bs.len() - i,
{
    if i < 0 || i >= bs.len() {
        Seq::empty()
    } else if bs[i] == 37 && i + 2 < bs.len() && hex_value(bs[i + 1]) is Some && hex_value(bs[i + 2]) is Some {
        seq![(hex_value(bs[i + 1]).unwrap() * 16 + hex_value(bs[i + 2]).unwrap()) as u8] + percent_decoded(bs, i + 3)
    } else {
        seq![bs[i]] + percent_decoded(bs, i + 1)
    }
}

proof fn lemma_decoded_skip(s: Seq<u8>, i: int)
    requires
        0 <= i <= s.len(),
    ensures
        percent_decoded(s, i) == percent_decoded(s.skip(i), 0),
    decreases s.len() - i,
{
    let t = s.skip(i);
    if i < s.len() {
        assert(t[0] == s[i]);
        if s[i] == 37 && i + 2 < s.len() && hex_value(s[i + 1]) is Some && hex_value(s[i + 2]) is Some {
            assert(t[1] == s[i + 1] && t[2] == s[i + 2]);
            lemma_decoded_skip(s, i + 3);
            lemma_decoded_skip(t, 3);
            assert(t.skip(3) =~= s.skip(i + 3));
        } else {
            if t.len() > 2 {
                assert(t[1] == s[i + 1] && t[2] == s[i + 2]);
            }
            lemma_decoded_skip(s, i + 1);
            lemma_decoded_skip(t, 1);
            assert(t.skip(1) =~= s.skip(i + 1));
        }
    } else {
        assert(t.len() == 0);
    }
}

/// The bytes of an ASCII percent-encoding.
pub open spec fn encoded_bytes(bs: Seq<u8>) -> Seq<u8> {
    percent_encoded(bs).map_values(|c: char| c as u8)
}

proof fn lemma_hex_round_trip(d: nat)
    requires
        d < 16,
    ensures
        (hex_digit(d) as u32) < 128,
        hex_value(hex_digit(d) as u8) == Some(d as u8),
{
}

proof fn lemma_encoded_ascii(bs: Seq<u8>)
    ensures
        vstd::utf8::is_ascii_chars(percent_encoded(bs)),
        vstd::utf8::encode_utf8(percent_encoded(bs)) == encoded_bytes(bs),
    decreases bs.len(),
{
    let e = percent_encoded(bs);
    if bs.len() > 0 {
        lemma_encoded_ascii(bs.drop_last());
        let b = bs.last();
        lemma_hex_round_trip((b / 16) as nat);
        lemma_hex_round_trip((b % 16) as nat);
        let prev = percent_encoded(bs.drop_last());
        assert forall|i: int| 0 <= i < e.len() implies '\0' <= #[trigger] e[i] <= '\u{7f}' by {
            if i < prev.len() {
                assert(e[i] == prev[i]);
            }
        }
    }
    assert(vstd::utf8::is_ascii_chars(e));
    vstd::utf8::is_ascii_chars_encode_utf8(e);
    assert(vstd::utf8::encode_utf8(e) =~= encoded_bytes(bs));
}

proof fn lemma_decode_encoded(bs: Seq<u8>, t: Seq<u8>)
    ensures
        percent_decoded(encoded_bytes(bs) + t, 0) == bs + percent_decoded(t, 0),
    decreases bs.len(),
{
    if bs.len() == 0 {
        assert(encoded_bytes(bs) + t =~= t);
        assert(bs + percent_decoded(t, 0) =~= percent_decoded(t, 0));
    } else {
        let b = bs.last();
        let rest = bs.drop_last();
        let tok = encoded_bytes(bs).skip(encoded_bytes(rest).len() as int);
        assert(encoded_bytes(bs) =~= encoded_bytes(rest) + tok);
        let u = tok + t;
        lemma_decode_encoded(rest, u);
        assert(encoded_bytes(rest) + u =~= encoded_bytes(bs) + t);
        lemma_hex_round_trip((b / 16) as nat);
        lemma_hex_round_trip((b % 16) as nat);
        if unreserved(b) {
            assert(tok =~= seq![b]);
            assert(u[0] == b);
            lemma_decoded_skip(u, 1);
            assert(u.skip(1) =~= t);
        } else {
            assert(tok =~= seq![37u8, hex_digit((b / 16) as nat) as u8, hex_digit((b % 16) as nat) as u8]);
            assert(u[0] == 37 && u[1] == tok[1] && u[2] == tok[2]);
            assert((b / 16) * 16 + b % 16 == b);
            lemma_decoded_skip(u, 3);
            assert(u.skip(3) =~= t);
        }
        assert(rest + (seq![b] + percent_decoded(t, 0)) =~= bs + percent_decoded(t, 0));
    }
}

/// A percent-encoding is made of URI-safe characters only: ASCII letters, digits, `-`,
/// `_`, `.`, `~`, `/`, and `%` starting an escape of two upper-case hexadecimal digits;
/// so no `#`, `?`, space or other reserved character is ever written as it is.
pub proof fn lemma_encoded_chars(bs: Seq<u8>)
    ensures
        forall|i: int| 0 <= i < percent_encoded(bs).len() ==> {
            let c = #[trigger] percent_encoded(bs)[i];
            ||| 'A' <= c <= 'Z'
            ||| 'a' <= c <= 'z'
            ||| '0' <= c <= '9'
            ||| c == '-' || c == '_' || c == '.' || c == '~' || c == '/'
            ||| (c == '%' && i + 2 < percent_encoded(bs).len()
                && ('0' <= percent_encoded(bs)[i + 1] <= '9' || 'A' <= percent_encoded(bs)[i + 1] <= 'F')
                && ('0' <= percent_encoded(bs)[i + 2] <= '9' || 'A' <= percent_encoded(bs)[i + 2] <= 'F'))
        },
    decreases bs.len(),
{
    if bs.len() > 0 {
        let rest = bs.drop_last();
        lemma_encoded_chars(rest);
        let p = percent_encoded(rest);
        let e = percent_encoded(bs);
        let b = bs.last();
        assert forall|i: int| 0 <= i < e.len() implies {
            let c = #[trigger] e[i];
            ||| 'A' <= c <= 'Z'
            ||| 'a' <= c <= 'z'
            ||| '0' <= c <= '9'
            ||| c == '-' || c == '_' || c == '.' || c == '~' || c == '/'
            ||| (c == '%' && i + 2 < e.len() && ('0' <= e[i + 1] <= '9' || 'A' <= e[i + 1] <= 'F') && ('0'
                <= e[i + 2] <= '9' || 'A' <= e[i + 2] <= 'F'))
        } by {
            if i < p.len() {
                assert(e[i] == p[i]);
                if e[i] == '%' && i + 2 < p.len() {
                    assert(e[i + 1] == p[i + 1]);
                    assert(e[i + 2] == p[i + 2]);
                }
            } else if unreserved(b) {
                assert(e[i] == b as char);
            } else {
                assert(e[p.len() as int] == '%');
                assert(e[p.len() as int + 1] == hex_digit((b / 16) as nat));
                assert(e[p.len() as int + 2] == hex_digit((b % 16) as nat));
            }
        }
    }
}

/// One byte is written as itself exactly when it is an ASCII letter or digit, `-`, `_`,
/// `.`, `~` or `/`; any other byte as `%` and its two upper-case hexadecimal digits.
pub proof fn lemma_encoded_byte(b: u8)
    ensures
        ((65 <= b <= 90) || (97 <= b <= 122) || (48 <= b <= 57) || b == 45 || b == 95 || b == 46 || b == 126
            || b == 47) ==> percent_encoded(seq![b]) == seq![b as char],
        !((65 <= b <= 90) || (97 <= b <= 122) || (48 <= b <= 57) || b == 45 || b == 95 || b == 46 || b == 126
            || b == 47) ==> percent_encoded(seq![b]) == seq!['%', hex_digit((b / 16) as nat), hex_digit((b % 16) as nat)],
        hex_digit((b / 16) as nat) as u32 == (if b / 16 < 10 { b / 16 + 48 } else { b / 16 + 55 }),
        hex_digit((b % 16) as nat) as u32 == (if b % 16 < 10 { b % 16 + 48 } else { b % 16 + 55 }),
{
    let one = seq![b];
    assert(one.drop_last() =~= Seq::<u8>::empty());
    assert(one.last() == b);
    assert(percent_encoded(Seq::<u8>::empty()) == Seq::<char>::empty());
    let tok = if unreserved(b) {
        seq![b as char]
    } else {
        seq!['%', hex_digit((b / 16) as nat), hex_digit((b % 16) as nat)]
    };
    assert(percent_encoded(one) == percent_encoded(one.drop_last()) + tok);
    assert(Seq::<char>::empty() + tok =~= tok);
}

/// Decoding a percent-encoding gives back the bytes that were encoded.
pub proof fn lemma_percent_round_trip(bs: Seq<u8>)
    ensures
        percent_decoded(vstd::utf8::encode_utf8(percent_encoded(bs)), 0) == bs,
{
    lemma_encoded_ascii(bs);
    lemma_decode_encoded(bs, Seq::empty());
    assert(encoded_bytes(bs) + Seq::<u8>::empty() =~= encoded_bytes(bs));
    assert(bs + Seq::<u8>::empty() =~= bs);
}

/// What `String::from_utf8_lossy` gives for these bytes: invalid sequences replaced by
/// U+FFFD.
pub uninterp spec fn utf8_lossy(bs: Seq<u8>) -> Seq<char>;

/// `String::from_utf8_lossy`; documented to give the decoded string when the bytes are
/// valid UTF-8.
#[verifier::external_body]
fn from_utf8_lossy(bs: &[u8]) -> (r: String)
    ensures
        r@ == utf8_lossy(bs@),
        vstd::utf8::valid_utf8(bs@) ==> r@ == vstd::utf8::decode_utf8(bs@),
{
    String::from_utf8_lossy(bs).into_owned()
}

/// Decodes `%XY` escapes of a URI path into a string.
pub fn percent_decode(input: &str) -> (r: String)
    ensures
        r@ == utf8_lossy(percent_decoded(vstd::utf8::encode_utf8(input@), 0)),
        vstd::utf8::valid_utf8(percent_decoded(vstd::utf8::encode_utf8(input@), 0)) ==> r@
            == vstd::utf8::decode_utf8(percent_decoded(vstd::utf8::encode_utf8(input@), 0)),
{
    let bytes = input.as_bytes();
    let ghost bs = bytes@;
    let mut out: Vec<u8> = Vec::new();
    let mut i: usize = 0;
    while i < bytes.len()
        invariant
            i <= bs.len(),
            bytes@ == bs,
            out@ + percent_decoded(bs, i as int) == percent_decoded(bs, 0),
        decreases bytes.len() - i,
    {
        if bytes[i] == 37 && bytes.len() - i > 2 {
            match (hex(bytes[i + 1]), hex(bytes[i + 2])) {
                (Some(h), Some(l)) => {
                    let ghost before = out@;
                    out.push(h * 16 + l);
                    assert(before + percent_decoded(bs, i as int) =~= out@ + percent_decoded(bs, i + 3));
                    i += 3;
                    continue;
                },
                _ => {},
            }
        }
        let ghost before = out@;
        out.push(bytes[i]);
        assert(before + percent_decoded(bs, i as int) =~= out@ + percent_decoded(bs, i + 1));
        i += 1;
    }
    assert(out@ + Seq::<u8>::empty() =~= out@);
    from_utf8_lossy(out.as_slice())
}

/// `s` without any leading or trailing `c` (`str::trim_matches` with one character).
pub open spec fn trim_char(s: Seq<char>, c: char) -> Seq<char>
    decreases s.len(),
{
    if s.len() == 0 {
        s
    } else if s[0] == c {
        trim_char(s.drop_first(), c)
    } else if s.last() == c {
        trim_char(s.drop_last(), c)
    } else {
        s
    }
}

proof fn lemma_trim_char_tail(s: Seq<char>, c: char, a: int, b: int)
    requires
        0 <= a < b <= s.len(),
        s[a] != c,
        s[b - 1] == c,
    ensures
        trim_char(s.subrange(a, b), c) == trim_char(s.subrange(a, b - 1), c),
{
    assert(s.subrange(a, b).drop_last() =~= s.subrange(a, b - 1));
}

/// Removes every leading and trailing `c`.
fn trim_char_vec(s: &Vec<char>, c: char) -> (r: Vec<char>)
    ensures
        r@ == trim_char(s@, c),
{
    let mut a: usize = 0;
    assert(s@.subrange(0, s@.len() as int) =~= s@);
    while a < s.len() && s[a] == c
        invariant
            a <= s@.len(),
            trim_char(s@.subrange(a as int, s@.len() as int), c) == trim_char(s@, c),
        decreases s.len() - a,
    {
        assert(s@.subrange(a as int, s@.len() as int).drop_first() =~= s@.subrange(a + 1, s@.len() as int));
        a += 1;
    }
    let mut b: usize = s.len();
    while b > a && s[b - 1] == c
        invariant
            a <= b <= s@.len(),
            a < s@.len() ==> s@[a as int] != c,
            trim_char(s@.subrange(a as int, b as int), c) == trim_char(s@, c),
        decreases b,
    {
        proof {
            if b - 1 == a {
                assert(s@.subrange(a as int, b as int)[0] == c);
            }
            lemma_trim_char_tail(s@, c, a as int, b as int);
        }
        b -= 1;
    }
    proof {
        let t = s@.subrange(a as int, b as int);
        if t.len() > 0 {
            assert(t[0] == s@[a as int]);
            assert(t.last() == s@[b - 1]);
        }
    }
    copy_range(s, a, b)
}

/// `s` without trailing carriage returns and line feeds.
pub open spec fn trim_line_end(s: Seq<char>) -> Seq<char>
    decreases s.len(),
{
    if s.len() > 0 && (s.last() == '\r' || s.last() == '\n') {
        trim_line_end(s.drop_last())
    } else {
        s
    }
}

/// The `file://` scheme prefix.
pub open spec fn file_scheme() -> Seq<char> {
    seq!['f', 'i', 'l', 'e', ':', '/', '/']
}

/// The path that clipboard text names: the text trimmed of white space and then of
/// NUL characters; nothing when that is empty; a `file://` URI decoded (after any
/// trailing line break); any other text as it is.
pub open spec fn clipboard_path(raw: Seq<u8>) -> Option<Seq<char>> {
    let t = trim_char(crate::text::trim(utf8_lossy(raw)), '\0');
    if t.len() == 0 {
        None
    } else if t.len() >= 7 && t.take(7) == file_scheme() {
        Some(utf8_lossy(percent_decoded(vstd::utf8::encode_utf8(trim_line_end(t.skip(7))), 0)))
    } else {
        Some(t)
    }
}

/// The clipboard contents written for a path: its `file://` URI as UTF-8 bytes.
pub open spec fn exported(path: Seq<char>) -> Seq<u8> {
    vstd::utf8::encode_utf8(file_scheme() + percent_encoded(vstd::utf8::encode_utf8(path)))
}

proof fn lemma_encoded_last(bs: Seq<u8>)
    requires
        bs.len() > 0,
    ensures
        percent_encoded(bs).len() > 0,
        !crate::text::is_ws(percent_encoded(bs).last()),
        percent_encoded(bs).last() != '\0',
        percent_encoded(bs).last() != '\r',
        percent_encoded(bs).last() != '\n',
{
    let b = bs.last();
    let e = percent_encoded(bs);
    if unreserved(b) {
        assert(e.last() == b as char);
    } else {
        assert(e.last() == hex_digit((b % 16) as nat));
    }
}

/// How the exported text of `path` reads back: valid UTF-8, no white space or NUL to
/// trim, the scheme, no line break, and a percent-encoding of the path's bytes.
proof fn lemma_exported_text(path: Seq<char>)
    ensures
        ({
            let u = file_scheme() + percent_encoded(vstd::utf8::encode_utf8(path));
            &&& vstd::utf8::valid_utf8(exported(path))
            &&& vstd::utf8::decode_utf8(exported(path)) == u
            &&& trim_char(crate::text::trim(u), '\0') == u
            &&& u.len() >= 7
            &&& u.take(7) == file_scheme()
            &&& trim_line_end(u.skip(7)) == u.skip(7)
            &&& percent_decoded(vstd::utf8::encode_utf8(u.skip(7)), 0) == vstd::utf8::encode_utf8(path)
            &&& vstd::utf8::valid_utf8(vstd::utf8::encode_utf8(path))
            &&& vstd::utf8::decode_utf8(vstd::utf8::encode_utf8(path)) == path
        }),
{
    broadcast use vstd::utf8::encode_utf8_valid_utf8, vstd::utf8::encode_utf8_decode_utf8;

    let bs = vstd::utf8::encode_utf8(path);
    let e = percent_encoded(bs);
    let u = file_scheme() + e;
    assert(u.take(7) =~= file_scheme());
    assert(u.skip(7) =~= e);
    if bs.len() > 0 {
        lemma_encoded_last(bs);
        assert(u.last() == e.last());
    } else {
        assert(e.len() == 0);
        assert(u.last() == '/');
    }
    assert(u[0] == 'f');
    assert(!crate::text::is_ws(u[0]));
    assert(crate::text::skip_ws(u, 0) == 0);
    assert(crate::text::rtrim_end(u, u.len() as int) == u.len());
    assert(u.subrange(0, u.len() as int) =~= u);
    assert(crate::text::trim(u) == u);
    assert(trim_char(u, '\0') == u);
    assert(trim_line_end(e) == e);
    lemma_percent_round_trip(bs);
}

/// Reads the path named by clipboard contents (`wl-paste`/`xclip` output). What export
/// wrote for a path reads back as that path.
pub fn clipboard_text_path(raw: &[u8]) -> (r: Option<String>)
    ensures
        crate::paths::opt_chars(r) == clipboard_path(raw@),
        forall|path: Seq<char>| raw@ == exported(path) ==> crate::paths::opt_chars(r) == Some(path),
{
    let text = from_utf8_lossy(raw);
    let cs = chars_of(text.as_str());
    let trimmed = trim_chars(&cs);
    let t = trim_char_vec(&trimmed, '\0');
    proof {
        assert forall|path: Seq<char>| raw@ == exported(path) implies t@ == file_scheme() + percent_encoded(
            vstd::utf8::encode_utf8(path),
        ) by {
            lemma_exported_text(path);
        }
    }
    if t.len() == 0 {
        return None;
    }
    let scheme = t.len() >= 7 && t[0] == 'f' && t[1] == 'i' && t[2] == 'l' && t[3] == 'e' && t[4] == ':'
        && t[5] == '/' && t[6] == '/';
    proof {
        if t@.len() >= 7 {
            assert(scheme == (t@.take(7) =~= file_scheme()));
        }
    }
    if scheme {
        let mut end = t.len();
        while end > 7 && (t[end - 1] == '\r' || t[end - 1] == '\n')
            invariant
                7 <= end <= t@.len(),
                trim_line_end(t@.subrange(7, end as int)) == trim_line_end(t@.skip(7)),
            decreases end,
        {
            assert(t@.subrange(7, end as int).drop_last() =~= t@.subrange(7, end - 1));
            end -= 1;
        }
        proof {
            assert(t@.subrange(7, t@.len() as int) =~= t@.skip(7));
        }
        let rest = copy_range(&t, 7, end);
        let rest_s = string_of(&rest);
        let decoded = percent_decode(rest_s.as_str());
        proof {
            assert forall|path: Seq<char>| raw@ == exported(path) implies decoded@ == path by {
                lemma_exported_text(path);
                assert(rest_s@ == t@.skip(7));
            }
        }
        Some(decoded)
    } else {
        proof {
            assert forall|path: Seq<char>| raw@ == exported(path) implies false by {
                lemma_exported_text(path);
            }
        }
        Some(string_of(&t))
    }
}

/// The `file://` URI for an (absolute) path.
pub fn path_uri(absolute: &str) -> (r: String)
    ensures
        r@ == file_scheme() + percent_encoded(vstd::utf8::encode_utf8(absolute@)),
        vstd::utf8::encode_utf8(r@) == exported(absolute@),
{
    let mut out = String::new();
    proof {
        reveal_strlit("file://");
    }
    push_str(&mut out, "file://");
    let enc = percent_encode(absolute.as_bytes());
    push_str(&mut out, enc.as_str());
    assert(out@ =~= file_scheme() + percent_encoded(vstd::utf8::encode_utf8(absolute@)));
    out
}

} // verus!
