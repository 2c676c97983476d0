//! Directory entries, their ordering, and human readable sizes.
use vstd::prelude::*;

use crate::text::{digit, push_char, push_dec, push_str, to_lowercase};

verus! {

/// Ordering applied to a directory listing.
#[derive(Debug, Clone, Copy, PartialEq, Eq, Structural)]
pub enum SortMode {
    Name,
    Size,
    Modified,
}

impl SortMode {
    /// The mode after this one in the cycle name → size → date → name.
    pub fn next(self) -> (r: Self)
        ensures
            r == self.next_mode(),
    {
        match self {
            SortMode::Name => SortMode::Size,
            SortMode::Size => SortMode::Modified,
            SortMode::Modified => SortMode::Name,
        }
    }

    /// The mode after this one (specification of `next`).
    pub open spec fn next_mode(self) -> SortMode {
        match self {
            SortMode::Name => SortMode::Size,
            SortMode::Size => SortMode::Modified,
            SortMode::Modified => SortMode::Name,
        }
    }

    /// Short label shown in the status line.
    pub fn label(self) -> (r: &'static str)
        ensures
            r@ == match self {
                SortMode::Name => "name"@,
                SortMode::Size => "size"@,
                SortMode::Modified => "date"@,
            },
    {
        match self {
            SortMode::Name => "name",
            SortMode::Size => "size",
            SortMode::Modified => "date",
        }
    }
}

/// A point in time as whole seconds since the Unix epoch plus nanoseconds.
#[derive(Debug, Clone, Copy, PartialEq, Eq, Structural)]
pub struct Timestamp {
    pub secs: i64,
    pub nanos: u32,
}

/// One item of a directory listing.
#[derive(Debug, Clone)]
pub struct Entry {
    pub path: String,
    pub name: String,
    pub is_dir: bool,
    pub is_symlink: bool,
    pub size: u64,
    pub modified: Option<Timestamp>,
}

/// Three-way comparison of integers: -1, 0 or 1.
pub open spec fn three_way(a: int, b: int) -> int {
    if a < b {
        -1
    } else if a > b {
        1
    } else {
        0
    }
}

/// Lexicographic three-way comparison of byte strings (how `str` orders).
pub open spec fn order_bytes(a: Seq<u8>, b: Seq<u8>) -> int
    decreases a.len(),
{
    if a.len() == 0 {
        if b.len() == 0 { 0 } else { -1 }
    } else if b.len() == 0 {
        1
    } else if a[0] != b[0] {
        three_way(a[0] as int, b[0] as int)
    } else {
        order_bytes(a.drop_first(), b.drop_first())
    }
}

/// Three-way comparison of strings by their UTF-8 bytes.
pub open spec fn order_str(a: Seq<char>, b: Seq<char>) -> int {
    order_bytes(vstd::utf8::encode_utf8(a), vstd::utf8::encode_utf8(b))
}

/// Three-way comparison of optional timestamps, absent first.
pub open spec fn order_time(a: Option<Timestamp>, b: Option<Timestamp>) -> int {
    match (a, b) {
        (None, None) => 0,
        (None, Some(_)) => -1,
        (Some(_), None) => 1,
        (Some(x), Some(y)) => if x.secs != y.secs {
            three_way(x.secs as int, y.secs as int)
        } else {
            three_way(x.nanos as int, y.nanos as int)
        },
    }
}

/// Comparison by the key of a sort mode alone, given the lowercase names `la` and `lb`
/// of the two entries (the key of the name order).
pub open spec fn order_key_lowered(a: Entry, b: Entry, mode: SortMode, la: Seq<char>, lb: Seq<char>) -> int {
    match mode {
        SortMode::Name => order_str(la, lb),
        SortMode::Size => three_way(a.size as int, b.size as int),
        SortMode::Modified => order_time(a.modified, b.modified),
    }
}

/// Comparison by the key of a sort mode alone.
pub open spec fn order_key(a: Entry, b: Entry, mode: SortMode) -> int {
    order_key_lowered(a, b, mode, crate::text::lowercase(a.name@), crate::text::lowercase(b.name@))
}

/// Listing order given the lowercase names `la` and `lb`: directories before files,
/// then the mode's key, then the exact name.
pub open spec fn order_entry_lowered(a: Entry, b: Entry, mode: SortMode, la: Seq<char>, lb: Seq<char>) -> int {
    if a.is_dir != b.is_dir {
        if a.is_dir { -1 } else { 1 }
    } else {
        let k = order_key_lowered(a, b, mode, la, lb);
        if k == 0 {
            order_str(a.name@, b.name@)
        } else {
            k
        }
    }
}

/// Listing order: directories before files, then the mode's key, then the exact name.
pub open spec fn order_entry(a: Entry, b: Entry, mode: SortMode) -> int {
    order_entry_lowered(a, b, mode, crate::text::lowercase(a.name@), crate::text::lowercase(b.name@))
}

fn order_u64(a: u64, b: u64) -> (r: i8)
    ensures
        r == three_way(a as int, b as int),
{
    if a < b {
        -1
    } else if a > b {
        1
    } else {
        0
    }
}

/// Compares two byte strings lexicographically.
fn order_byte_slices(a: &[u8], b: &[u8]) -> (r: i8)
    ensures
        r == order_bytes(a@, b@),
{
    let mut i: usize = 0;
    assert(a@.skip(0) =~= a@);
    assert(b@.skip(0) =~= b@);
    while i < a.len() && i < b.len() && a[i] == b[i]
        invariant
            i <= a@.len(),
            i <= b@.len(),
            order_bytes(a@, b@) == order_bytes(a@.skip(i as int), b@.skip(i as int)),
        decreases a.len() - i,
    {
        assert(a@.skip(i as int).drop_first() =~= a@.skip(i + 1));
        assert(b@.skip(i as int).drop_first() =~= b@.skip(i + 1));
        assert(a@.skip(i as int)[0] == b@.skip(i as int)[0]);
        i += 1;
    }
    assert(i < a@.len() ==> a@.skip(i as int)[0] == a@[i as int]);
    assert(i < b@.len() ==> b@.skip(i as int)[0] == b@[i as int]);
    if i == a.len() {
        if i == b.len() { 0 } else { -1 }
    } else if i == b.len() {
        1
    } else if a[i] < b[i] {
        -1
    } else {
        1
    }
}

/// Compares two strings by their UTF-8 bytes.
pub fn compare_strings(a: &str, b: &str) -> (r: i8)
    ensures
        r == order_str(a@, b@),
{
    order_byte_slices(a.as_bytes(), b.as_bytes())
}

fn compare_times(a: &Option<Timestamp>, b: &Option<Timestamp>) -> (r: i8)
    ensures
        r == order_time(*a, *b),
{
    match (a, b) {
        (None, None) => 0,
        (None, Some(_)) => -1,
        (Some(_), None) => 1,
        (Some(x), Some(y)) => if x.secs != y.secs {
            if x.secs < y.secs { -1 } else { 1 }
        } else {
            order_u64(x.nanos as u64, y.nanos as u64)
        },
    }
}

/// Compares two entries in listing order, given their lowercase names `la` and `lb`
/// (only the name order reads them).
pub fn compare_entries_lowered(a: &Entry, b: &Entry, mode: SortMode, la: &str, lb: &str) -> (r: i8)
    ensures
        r == order_entry_lowered(*a, *b, mode, la@, lb@),
{
    if a.is_dir != b.is_dir {
        return if a.is_dir { -1 } else { 1 };
    }
    let k = match mode {
        SortMode::Name => compare_strings(la, lb),
        SortMode::Size => order_u64(a.size, b.size),
        SortMode::Modified => compare_times(&a.modified, &b.modified),
    };
    if k == 0 {
        compare_strings(a.name.as_str(), b.name.as_str())
    } else {
        k
    }
}

/// Compares two entries in listing order.
pub fn compare_entries(a: &Entry, b: &Entry, mode: SortMode) -> (r: i8)
    ensures
        r == order_entry(*a, *b, mode),
{
    match mode {
        SortMode::Name => if a.is_dir == b.is_dir {
            let la = to_lowercase(a.name.as_str());
            let lb = to_lowercase(b.name.as_str());
            compare_entries_lowered(a, b, mode, la.as_str(), lb.as_str())
        } else {
            compare_entries_lowered(a, b, mode, "", "")
        },
        _ => compare_entries_lowered(a, b, mode, "", ""),
    }
}


/// First position at or after `i` whose entry orders strictly after `x` (or the length).
pub open spec fn insert_from(s: Seq<Entry>, x: Entry, mode: SortMode, i: int) -> int
    decreases s.len() - i,
{
    if i < 0 || i >= s.len() {
        s.len() as int
    } else if order_entry(s[i], x, mode) > 0 {
        i
    } else {
        insert_from(s, x, mode, i + 1)
    }
}

/// The listing `s` in listing order, equal entries keeping their relative order
/// (a stable sort: each entry goes after every entry that does not order after it).
pub open spec fn sorted_listing(s: Seq<Entry>, mode: SortMode) -> Seq<Entry>
    decreases s.len(),
{
    if s.len() == 0 {
        s
    } else {
        let r = sorted_listing(s.drop_last(), mode);
        r.insert(insert_from(r, s.last(), mode, 0), s.last())
    }
}

pub(crate) proof fn lemma_insert_from_bounds(s: Seq<Entry>, x: Entry, mode: SortMode, i: int)
    requires
        0 <= i <= s.len(),
    ensures
        i <= insert_from(s, x, mode, i) <= s.len(),
    decreases s.len() - i,
{
    if i < s.len() && order_entry(s[i], x, mode) <= 0 {
        lemma_insert_from_bounds(s, x, mode, i + 1);
    }
}

pub(crate) proof fn lemma_sorted_listing_len(s: Seq<Entry>, mode: SortMode)
    ensures
        sorted_listing(s, mode).len() == s.len(),
    decreases s.len(),
{
    if s.len() > 0 {
        lemma_sorted_listing_len(s.drop_last(), mode);
        let r = sorted_listing(s.drop_last(), mode);
        lemma_insert_from_bounds(r, s.last(), mode, 0);
    }
}

proof fn lemma_order_bytes_antisym(a: Seq<u8>, b: Seq<u8>)
    ensures
        order_bytes(a, b) == -order_bytes(b, a),
        -1 <= order_bytes(a, b) <= 1,
        order_bytes(a, b) == 0 <==> a == b,
    decreases a.len(),
{
    if a.len() > 0 && b.len() > 0 && a[0] == b[0] {
        lemma_order_bytes_antisym(a.drop_first(), b.drop_first());
        if a.drop_first() == b.drop_first() {
            assert(a =~= seq![a[0]] + a.drop_first());
            assert(b =~= seq![b[0]] + b.drop_first());
        }
    }
    if a.len() == 0 && b.len() == 0 {
        assert(a =~= b);
    }
}

proof fn lemma_order_bytes_trans(a: Seq<u8>, b: Seq<u8>, c: Seq<u8>)
    requires
        order_bytes(a, b) <= 0,
        order_bytes(b, c) <= 0,
    ensures
        order_bytes(a, c) <= 0,
    decreases a.len(),
{
    if a.len() > 0 && b.len() > 0 && c.len() > 0 && a[0] == b[0] && b[0] == c[0] {
        lemma_order_bytes_trans(a.drop_first(), b.drop_first(), c.drop_first());
    }
}

/// The key of an entry as a comparable value: equal keys compare equal.
proof fn lemma_key_laws(a: Entry, b: Entry, c: Entry, mode: SortMode)
    ensures
        order_key(a, b, mode) == -order_key(b, a, mode),
        -1 <= order_key(a, b, mode) <= 1,
        order_key(a, b, mode) <= 0 && order_key(b, c, mode) <= 0 ==> order_key(a, c, mode) <= 0,
        order_key(a, b, mode) == 0 ==> order_key(a, c, mode) == order_key(b, c, mode),
{
    match mode {
        SortMode::Name => {
            let ka = vstd::utf8::encode_utf8(crate::text::lowercase(a.name@));
            let kb = vstd::utf8::encode_utf8(crate::text::lowercase(b.name@));
            let kc = vstd::utf8::encode_utf8(crate::text::lowercase(c.name@));
            lemma_order_bytes_antisym(ka, kb);
            if order_bytes(ka, kb) <= 0 && order_bytes(kb, kc) <= 0 {
                lemma_order_bytes_trans(ka, kb, kc);
            }
        },
        SortMode::Size => {},
        SortMode::Modified => {},
    }
}

/// Listing order is a total preorder: it is antisymmetric and transitive.
proof fn lemma_entry_laws(a: Entry, b: Entry, c: Entry, mode: SortMode)
    ensures
        order_entry(a, b, mode) == -order_entry(b, a, mode),
        order_entry(a, b, mode) <= 0 && order_entry(b, c, mode) <= 0 ==> order_entry(a, c, mode) <= 0,
{
    lemma_key_laws(a, b, c, mode);
    lemma_key_laws(b, a, c, mode);
    lemma_key_laws(a, c, b, mode);
    lemma_key_laws(b, c, a, mode);
    lemma_key_laws(c, a, b, mode);
    let (na, nb, nc) = (vstd::utf8::encode_utf8(a.name@), vstd::utf8::encode_utf8(b.name@), vstd::utf8::encode_utf8(c.name@));
    lemma_order_bytes_antisym(na, nb);
    if order_bytes(na, nb) <= 0 && order_bytes(nb, nc) <= 0 {
        lemma_order_bytes_trans(na, nb, nc);
    }
}

/// Whether a listing is in listing order under `mode`.
pub open spec fn listing_ordered(r: Seq<Entry>, mode: SortMode) -> bool {
    forall|i: int, j: int| 0 <= i < j < r.len() ==> order_entry(#[trigger] r[i], #[trigger] r[j], mode) <= 0
}

proof fn lemma_insert_from_props(s: Seq<Entry>, x: Entry, mode: SortMode, i: int)
    requires
        0 <= i <= s.len(),
    ensures
        i <= insert_from(s, x, mode, i) <= s.len(),
        forall|k: int| i <= k < insert_from(s, x, mode, i) ==> order_entry(#[trigger] s[k], x, mode) <= 0,
        insert_from(s, x, mode, i) < s.len() ==> order_entry(s[insert_from(s, x, mode, i)], x, mode) > 0,
    decreases s.len() - i,
{
    if i < s.len() && order_entry(s[i], x, mode) <= 0 {
        lemma_insert_from_props(s, x, mode, i + 1);
    }
}

/// A sorted listing is in listing order and holds exactly the entries it was made
/// from: every sort keeps the entries and puts them in order.
pub proof fn lemma_sorted_listing(s: Seq<Entry>, mode: SortMode)
    ensures
        listing_ordered(sorted_listing(s, mode), mode),
        sorted_listing(s, mode).to_multiset() == s.to_multiset(),
    decreases s.len(),
{
    if s.len() == 0 {
        return;
    }
    let r = sorted_listing(s.drop_last(), mode);
    let x = s.last();
    lemma_sorted_listing(s.drop_last(), mode);
    let p = insert_from(r, x, mode, 0);
    lemma_insert_from_props(r, x, mode, 0);
    let q = r.insert(p, x);
    assert(sorted_listing(s, mode) == q);
    assert forall|i: int, j: int| 0 <= i < j < q.len() implies order_entry(#[trigger] q[i], #[trigger] q[j], mode) <= 0 by {
        if j < p {
            assert(q[i] == r[i] && q[j] == r[j]);
        } else if j == p {
            assert(q[i] == r[i] && q[j] == x);
        } else if i < p {
            assert(q[i] == r[i] && q[j] == r[j - 1]);
        } else if i == p {
            assert(q[i] == x && q[j] == r[j - 1]);
            lemma_entry_laws(r[p], x, r[j - 1], mode);
            lemma_entry_laws(x, r[p], r[j - 1], mode);
            if j - 1 > p {
                assert(order_entry(r[p], r[j - 1], mode) <= 0);
            }
        } else {
            assert(q[i] == r[i - 1] && q[j] == r[j - 1]);
        }
    }
    vstd::seq_lib::to_multiset_insert(r, p, x);
    vstd::seq_lib::to_multiset_build(s.drop_last(), x);
    assert(s.drop_last().push(x) =~= s);
}

/// In listing order, directories come before files.
pub proof fn lemma_directories_first(r: Seq<Entry>, mode: SortMode)
    requires
        listing_ordered(r, mode),
    ensures
        forall|i: int, j: int| 0 <= i < j < r.len() && (#[trigger] r[j]).is_dir ==> (#[trigger] r[i]).is_dir,
{
    assert forall|i: int, j: int| 0 <= i < j < r.len() && (#[trigger] r[j]).is_dir implies (#[trigger] r[i]).is_dir by {
        assert(order_entry(r[i], r[j], mode) <= 0);
    }
}

/// The mode comes back after three steps of `next`.
pub proof fn lemma_next_cycles(mode: SortMode)
    ensures
        mode.next_mode().next_mode().next_mode() == mode,
        mode.next_mode() != mode,
{
}

fn insert_position(out: &Vec<Entry>, x: &Entry, mode: SortMode) -> (p: usize)
    ensures
        p == insert_from(out@, *x, mode, 0),
{
    let mut p: usize = 0;
    while p < out.len() && compare_entries(&out[p], x, mode) <= 0
        invariant
            p <= out@.len(),
            insert_from(out@, *x, mode, 0) == insert_from(out@, *x, mode, p as int),
        decreases out.len() - p,
    {
        p += 1;
    }
    p
}

/// Sorts a listing into listing order (stable).
pub fn sort_entries(v: Vec<Entry>, mode: SortMode) -> (r: Vec<Entry>)
    ensures
        r@ == sorted_listing(v@, mode),
{
    let ghost orig = v@;
    let mut out: Vec<Entry> = Vec::new();
    for x in it: v.into_iter()
        invariant
            it.seq() == orig,
            out@ == sorted_listing(orig.take(it.index() as int), mode),
    {
        let ghost k = it.index() as int;
        proof {
            assert(orig.take(k + 1).drop_last() =~= orig.take(k));
            assert(orig.take(k + 1).last() == orig[k]);
            lemma_sorted_listing_len(orig.take(k), mode);
            lemma_insert_from_bounds(out@, x, mode, 0);
        }
        let p = insert_position(&out, &x, mode);
        out.insert(p, x);
    }
    proof {
        assert(orig.take(orig.len() as int) =~= orig);
    }
    out
}

/// Whether a name marks a hidden entry (it starts with a dot).
pub open spec fn is_hidden_name(name: Seq<char>) -> bool {
    name.len() > 0 && name[0] == '.'
}

/// The entries of `s` that are shown: all of them when `hidden` is set, else those
/// whose name does not start with a dot.
pub open spec fn visible(s: Seq<Entry>, hidden: bool) -> Seq<Entry>
    decreases s.len(),
{
    if s.len() == 0 {
        s
    } else {
        let r = visible(s.drop_last(), hidden);
        if hidden || !is_hidden_name(s.last().name@) {
            r.push(s.last())
        } else {
            r
        }
    }
}

/// A directory listing as shown: hidden names dropped unless asked for, then sorted.
pub open spec fn arranged(s: Seq<Entry>, hidden: bool, mode: SortMode) -> Seq<Entry> {
    sorted_listing(visible(s, hidden), mode)
}

fn hidden_name(name: &String) -> (r: bool)
    ensures
        r == is_hidden_name(name@),
{
    let cs = crate::text::chars_of(name.as_str());
    cs.len() > 0 && cs[0] == '.'
}

/// Drops hidden names (unless `hidden`) and sorts what remains into listing order.
pub fn arrange_entries(listing: Vec<Entry>, hidden: bool, mode: SortMode) -> (r: Vec<Entry>)
    ensures
        r@ == arranged(listing@, hidden, mode),
{
    let ghost orig = listing@;
    let mut kept: Vec<Entry> = Vec::new();
    for x in it: listing.into_iter()
        invariant
            it.seq() == orig,
            kept@ == visible(orig.take(it.index() as int), hidden),
    {
        let ghost k = it.index() as int;
        proof {
            assert(orig.take(k + 1).drop_last() =~= orig.take(k));
            assert(orig.take(k + 1).last() == orig[k]);
        }
        if hidden || !hidden_name(&x.name) {
            kept.push(x);
        }
    }
    proof {
        assert(orig.take(orig.len() as int) =~= orig);
    }
    sort_entries(kept, mode)
}


/// Two to the power `k`.
pub open spec fn pow2(k: nat) -> nat
    decreases k,
{
    if k == 0 {
        1
    } else {
        2 * pow2((k - 1) as nat)
    }
}

/// Smallest `s >= from` (at most 11) for which `n < 2^(53 + s)`: how many low bits of `n`
/// a 53-bit significand cannot hold.
pub open spec fn grid_shift(n: nat, from: nat) -> nat
    decreases 11 - from,
{
    if from >= 11 || n < pow2(53 + from) {
        from
    } else {
        grid_shift(n, from + 1)
    }
}

/// `a / b` rounded to the nearest integer, ties to even.
pub open spec fn div_round_even(a: nat, b: nat) -> nat {
    let q = a / b;
    let r = a % b;
    if 2 * r > b || (2 * r == b && q % 2 == 1) {
        q + 1
    } else {
        q
    }
}

/// The value of `n as f64`: `n` rounded to 53 significant bits, ties to even.
pub open spec fn as_f64_value(n: nat) -> nat {
    let s = grid_shift(n, 0);
    div_round_even(n, pow2(s)) * pow2(s)
}

/// Powers of 1024.
pub open spec fn pow1024(k: nat) -> nat
    decreases k,
{
    if k == 0 {
        1
    } else {
        1024 * pow1024((k - 1) as nat)
    }
}

/// How many times 1024 divides into `v` before it drops below 1024, at most four.
pub open spec fn unit_index(v: nat) -> nat {
    if v >= pow1024(4) {
        4
    } else if v >= pow1024(3) {
        3
    } else if v >= pow1024(2) {
        2
    } else if v >= pow1024(1) {
        1
    } else {
        0
    }
}

/// The unit name for a unit index.
pub open spec fn unit_name(k: nat) -> Seq<char> {
    if k == 0 {
        "B"@
    } else if k == 1 {
        "KB"@
    } else if k == 2 {
        "MB"@
    } else if k == 3 {
        "GB"@
    } else {
        "TB"@
    }
}

/// Size text: whole bytes below 1024, else the size (as a double) in the largest unit up to
/// TB that keeps it at least 1, with one decimal rounded half to even.
pub open spec fn human_size_text(size: nat) -> Seq<char> {
    if size < 1024 {
        crate::text::dec(size) + " B"@
    } else {
        let v = as_f64_value(size);
        let k = unit_index(v);
        let tenths = div_round_even(10 * v, pow1024(k));
        crate::text::dec(tenths / 10) + seq!['.', crate::text::digit_char(tenths % 10), ' '] + unit_name(k)
    }
}

fn div_round_even_exec(a: u128, b: u128) -> (r: u128)
    requires
        b > 0,
        b < 0x1_0000_0000_0000_0000_0000_0000_0000u128,
        a < 0x1_0000_0000_0000_0000_0000_0000_0000u128,
    ensures
        r == div_round_even(a as nat, b as nat),
{
    let q = a / b;
    let r = a % b;
    if 2 * r > b || (2 * r == b && q % 2 == 1) {
        q + 1
    } else {
        q
    }
}

proof fn lemma_pow2_pos(k: nat)
    ensures
        pow2(k) >= 1,
    decreases k,
{
    if k > 0 {
        lemma_pow2_pos((k - 1) as nat);
    }
}

/// `n as f64`, as an exact integer.
fn as_f64_exact(n: u64) -> (r: u128)
    ensures
        r == as_f64_value(n as nat),
        r <= 0x1_0000_0000_0000_0000u128,
        n >= 1024 ==> r >= 1024,
{
    let mut s: u64 = 0;
    let mut p: u128 = 1;
    let mut lim: u128 = 0x20_0000_0000_0000u128;
    proof {
        reveal_with_fuel(pow2, 54);
        assert(pow2(53) == 0x20_0000_0000_0000);
    }
    while !(s >= 11 || (n as u128) < lim)
        invariant
            s <= 11,
            p == pow2(s as nat),
            lim == pow2(53 + s as nat),
            grid_shift(n as nat, 0) == grid_shift(n as nat, s as nat),
            lim == p * 0x20_0000_0000_0000u128,
        decreases 11 - s,
    {
        proof {
            assert(pow2((s + 1) as nat) == 2 * pow2(s as nat));
            assert(pow2((53 + s + 1) as nat) == 2 * pow2((53 + s) as nat));
        }
        proof {
            lemma_pow2_le_2048(s as nat);
        }
        s = s + 1;
        p = p * 2;
        lim = lim * 2;
    }
    proof {
        lemma_pow2_pos(s as nat);
    }
    let q = div_round_even_exec(n as u128, p);
    proof {
        lemma_rounded_bounds(n as nat, s as nat, p as nat, q as nat);
    }
    q * p
}

proof fn lemma_pow2_le_2048(k: nat)
    requires
        k <= 11,
    ensures
        1 <= pow2(k) <= 2048,
        pow2(k) * (0x1_0000_0000_0000_0000nat / pow2(k)) == 0x1_0000_0000_0000_0000nat,
{
    reveal_with_fuel(pow2, 12);
    let t = 0x1_0000_0000_0000_0000nat;
    if k == 0 {
        assert(pow2(k) == 1);
        assert(1 * (t / 1) == t);
    } else if k == 1 {
        assert(pow2(k) == 2);
        assert(2 * (t / 2) == t);
    } else if k == 2 {
        assert(pow2(k) == 4);
        assert(4 * (t / 4) == t);
    } else if k == 3 {
        assert(pow2(k) == 8);
        assert(8 * (t / 8) == t);
    } else if k == 4 {
        assert(pow2(k) == 16);
        assert(16 * (t / 16) == t);
    } else if k == 5 {
        assert(pow2(k) == 32);
        assert(32 * (t / 32) == t);
    } else if k == 6 {
        assert(pow2(k) == 64);
        assert(64 * (t / 64) == t);
    } else if k == 7 {
        assert(pow2(k) == 128);
        assert(128 * (t / 128) == t);
    } else if k == 8 {
        assert(pow2(k) == 256);
        assert(256 * (t / 256) == t);
    } else if k == 9 {
        assert(pow2(k) == 512);
        assert(512 * (t / 512) == t);
    } else if k == 10 {
        assert(pow2(k) == 1024);
        assert(1024 * (t / 1024) == t);
    } else {
        assert(pow2(k) == 2048);
        assert(2048 * (t / 2048) == t);
    }
}

proof fn lemma_rounded_bounds(n: nat, s: nat, p: nat, q: nat)
    requires
        n < 0x1_0000_0000_0000_0000,
        s <= 11,
        p == pow2(s),
        s > 0 ==> n >= 0x20_0000_0000_0000,
        q == div_round_even(n, p),
    ensures
        q * p <= 0x1_0000_0000_0000_0000,
        n >= 1024 ==> q * p >= 1024,
{
    lemma_pow2_le_2048(s);
    if s == 0 {
        reveal_with_fuel(pow2, 1);
    }
    let m: int = 0x1_0000_0000_0000_0000int / (p as int);
    let d: int = n as int / p as int;
    let r: int = n as int % p as int;
    vstd::arithmetic::div_mod::lemma_fundamental_div_mod(n as int, p as int);
    vstd::arithmetic::div_mod::lemma_mod_pos_bound(n as int, p as int);
    assert(d < m) by (nonlinear_arith)
        requires
            n as int == p * d + r,
            0 <= r,
            (n as int) < 0x1_0000_0000_0000_0000int,
            p * m == 0x1_0000_0000_0000_0000int,
            p >= 1,
    ;
    assert((d + 1) * p <= m * p) by (nonlinear_arith)
        requires
            d < m,
            p >= 1,
    ;
    assert(q == d || q == d + 1);
    assert(q * p <= (d + 1) * p) by (nonlinear_arith)
        requires
            q <= d + 1,
            p >= 1,
    ;
    assert(q * p >= d * p) by (nonlinear_arith)
        requires
            q >= d,
            p >= 1,
            d >= 0,
    ;
}


/// Formats a byte count for display, e.g. `12 B` or `1.5 KB`.
pub fn human_size(size: u64) -> (r: String)
    ensures
        r@ == human_size_text(size as nat),
{
    let mut out = String::new();
    if size < 1024 {
        push_dec(&mut out, size);
        push_str(&mut out, " B");
        return out;
    }
    let v = as_f64_exact(size);
    proof {
        reveal_with_fuel(pow1024, 5);
    }
    let t: u128 = 10 * v;
    let tenths: u128;
    let k: u64;
    if v >= 0x100_0000_0000u128 {
        k = 4;
        tenths = div_round_even_exec(t, 0x100_0000_0000u128);
    } else if v >= 0x4000_0000u128 {
        k = 3;
        tenths = div_round_even_exec(t, 0x4000_0000u128);
    } else if v >= 0x10_0000u128 {
        k = 2;
        tenths = div_round_even_exec(t, 0x10_0000u128);
    } else {
        k = 1;
        tenths = div_round_even_exec(t, 1024u128);
    }
    assert(k == unit_index(v as nat));
    assert(tenths == div_round_even(10 * (v as nat), pow1024(k as nat)));
    assert(tenths / 10 <= 0xffff_ffff_ffff_ffffu128);
    let whole: u64 = (tenths / 10) as u64;
    let frac: u64 = (tenths % 10) as u64;
    push_dec(&mut out, whole);
    push_char(&mut out, '.');
    push_char(&mut out, digit(frac));
    push_char(&mut out, ' ');
    if k == 4 {
        push_str(&mut out, "TB");
    } else if k == 3 {
        push_str(&mut out, "GB");
    } else if k == 2 {
        push_str(&mut out, "MB");
    } else {
        push_str(&mut out, "KB");
    }
    assert(out@ =~= human_size_text(size as nat));
    out
}

} // verus!
