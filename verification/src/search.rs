//! Name filtering: plain substring matches and fuzzy subsequence ranking.
use vstd::prelude::*;

use crate::fs::Entry;
use crate::text::{chars_of, contains_chars, split_words, string_of, to_lowercase};

verus! {

/// First index at or after `pos` holding byte `b` (or the length when there is none).
pub open spec fn find_from(name: Seq<u8>, b: u8, pos: int) -> int
    decreases name.len() - pos,
{
    if pos < 0 || pos >= name.len() {
        name.len() as int
    } else if name[pos] == b {
        pos
    } else {
        find_from(name, b, pos + 1)
    }
}

/// Positions where the bytes of `needle` are found, each the first occurrence after
/// the previous one, starting at `pos`; `None` when some byte is not found.
pub open spec fn match_term(name: Seq<u8>, needle: Seq<u8>, pos: int) -> Option<Seq<int>>
    decreases needle.len(),
{
    if needle.len() == 0 {
        Some(Seq::empty())
    } else {
        let p = find_from(name, needle[0], pos);
        if p >= name.len() {
            None
        } else {
            match match_term(name, needle.drop_first(), p + 1) {
                Some(ms) => Some(seq![p] + ms),
                None => None,
            }
        }
    }
}

/// A match position starts a word: it is the first byte, or follows `_`, `-`, space,
/// `.` or an ASCII capital letter.
pub open spec fn is_boundary(name: Seq<u8>, m: int) -> bool {
    m == 0 || (1 <= m && m - 1 < name.len() && {
        let p = name[m - 1];
        p == 95 || p == 45 || p == 32 || p == 46 || (65 <= p <= 90)
    })
}

/// Number of match positions that start a word.
pub open spec fn boundary_count(name: Seq<u8>, ms: Seq<int>) -> int
    decreases ms.len(),
{
    if ms.len() == 0 {
        0
    } else {
        boundary_count(name, ms.drop_last()) + if is_boundary(name, ms.last()) { 1int } else { 0int }
    }
}

/// Every match directly follows the previous one.
pub open spec fn consecutive(ms: Seq<int>) -> bool {
    forall|i: int| 0 <= i < ms.len() - 1 ==> #[trigger] ms[i + 1] == ms[i] + 1
}

/// Score gained by one term searched from `pos`, with the position after its last
/// match; empty terms change nothing; `None` when the term is missing.
pub open spec fn term_step(name: Seq<u8>, needle: Seq<u8>, pos: int) -> Option<(int, int)> {
    if needle.len() == 0 {
        Some((0, pos))
    } else {
        match match_term(name, needle, pos) {
            None => None,
            Some(ms) => Some(
                (
                    (if consecutive(ms) { 100int } else { 0int }) + 10 * boundary_count(name, ms)
                        - (if pos < 256 { pos } else { 256 }),
                    ms.last() + 1,
                ),
            ),
        }
    }
}

/// Score accumulated over `terms` searched in order from `pos`.
pub open spec fn terms_score(name: Seq<u8>, terms: Seq<Seq<u8>>, pos: int, acc: int) -> Option<int>
    decreases terms.len(),
{
    if terms.len() == 0 {
        Some(acc)
    } else {
        match term_step(name, terms[0], pos) {
            None => None,
            Some((d, p)) => terms_score(name, terms.drop_first(), p, acc + d),
        }
    }
}

/// Fuzzy score of a (lowercase) name for the search terms, as bytes: `None` when a term
/// cannot be found in order; else the term scores minus 8 per term and half the length.
pub open spec fn fuzzy(name: Seq<u8>, terms: Seq<Seq<u8>>) -> Option<int> {
    match terms_score(name, terms, 0, 0) {
        None => None,
        Some(s) => Some(s - 8 * terms.len() - name.len() / 2),
    }
}


proof fn lemma_find_from(name: Seq<u8>, b: u8, pos: int)
    requires
        0 <= pos <= name.len(),
    ensures
        pos <= find_from(name, b, pos) <= name.len(),
        find_from(name, b, pos) < name.len() ==> name[find_from(name, b, pos)] == b,
    decreases name.len() - pos,
{
    if pos < name.len() && name[pos] != b {
        lemma_find_from(name, b, pos + 1);
    }
}

proof fn lemma_boundary_count_le(name: Seq<u8>, ms: Seq<int>)
    ensures
        0 <= boundary_count(name, ms) <= ms.len(),
    decreases ms.len(),
{
    if ms.len() > 0 {
        lemma_boundary_count_le(name, ms.drop_last());
    }
}

/// Whether `ix` places `needle` in `name` from `pos` on: increasing positions holding
/// the needle's bytes.
pub open spec fn placement(name: Seq<u8>, needle: Seq<u8>, pos: int, ix: Seq<int>) -> bool {
    &&& ix.len() == needle.len()
    &&& forall|i: int| 0 <= i < ix.len() ==> pos <= #[trigger] ix[i] < name.len() && name[ix[i]] == needle[i]
    &&& forall|i: int, j: int| 0 <= i < j < ix.len() ==> #[trigger] ix[i] < #[trigger] ix[j]
}

/// Whether `needle` occurs in `name` from `pos` on as a subsequence (not necessarily
/// contiguous).
pub open spec fn subseq_from(name: Seq<u8>, needle: Seq<u8>, pos: int) -> bool {
    exists|ix: Seq<int>| #[trigger] placement(name, needle, pos, ix)
}

/// The terms one after the other.
pub open spec fn joined_terms(terms: Seq<Seq<u8>>) -> Seq<u8>
    decreases terms.len(),
{
    if terms.len() == 0 {
        Seq::empty()
    } else {
        terms[0] + joined_terms(terms.drop_first())
    }
}

proof fn lemma_find_from_first(name: Seq<u8>, b: u8, pos: int)
    requires
        0 <= pos <= name.len(),
    ensures
        forall|q: int| pos <= q < find_from(name, b, pos) ==> name[q] != b,
    decreases name.len() - pos,
{
    if pos < name.len() && name[pos] != b {
        lemma_find_from_first(name, b, pos + 1);
    }
}

/// Where the search continues after a term matched at `ms` from `pos`.
pub open spec fn after_match(ms: Seq<int>, pos: int) -> int {
    if ms.len() == 0 { pos } else { ms.last() + 1 }
}

/// The greedy match is a placement, and a needle with any placement from `pos` has a
/// greedy match whose end is no later than the placement's.
proof fn lemma_match_greedy(name: Seq<u8>, needle: Seq<u8>, pos: int)
    requires
        0 <= pos <= name.len(),
    ensures
        match_term(name, needle, pos) matches Some(ms) ==> placement(name, needle, pos, ms) && pos <= after_match(ms, pos) <= name.len(),
        forall|ix: Seq<int>| #[trigger] placement(name, needle, pos, ix) ==> (match_term(name, needle, pos) matches Some(ms)
            && after_match(ms, pos) <= after_match(ix, pos)),
    decreases needle.len(),
{
    if needle.len() > 0 {
        let c = needle[0];
        let f = find_from(name, c, pos);
        lemma_find_from(name, c, pos);
        lemma_find_from_first(name, c, pos);
        if f < name.len() {
            lemma_match_greedy(name, needle.drop_first(), f + 1);
            match match_term(name, needle.drop_first(), f + 1) {
                Some(ms2) => {
                    let ms = seq![f] + ms2;
                    assert(placement(name, needle, pos, ms)) by {
                        assert forall|i: int, j: int| 0 <= i < j < ms.len() implies #[trigger] ms[i] < #[trigger] ms[j] by {
                            if i > 0 {
                                assert(ms[i] == ms2[i - 1] && ms[j] == ms2[j - 1]);
                            } else {
                                assert(ms[j] == ms2[j - 1]);
                            }
                        }
                        assert forall|i: int| 0 <= i < ms.len() implies pos <= #[trigger] ms[i] < name.len() && name[ms[i]] == needle[i] by {
                            if i > 0 {
                                assert(ms[i] == ms2[i - 1]);
                            }
                        }
                    }
                },
                None => {},
            }
        }
        assert forall|ix: Seq<int>| #[trigger] placement(name, needle, pos, ix) implies (match_term(name, needle, pos) matches Some(ms)
            && after_match(ms, pos) <= after_match(ix, pos)) by {
            assert(f <= ix[0]) by {
                if ix[0] < f {
                    assert(name[ix[0]] == c);
                }
            }
            let tail = ix.drop_first();
            assert(placement(name, needle.drop_first(), f + 1, tail)) by {
                assert forall|i: int| 0 <= i < tail.len() implies f + 1 <= #[trigger] tail[i] < name.len() && name[tail[i]] == needle.drop_first()[i] by {
                    assert(tail[i] == ix[i + 1]);
                    assert(ix[0] < ix[i + 1]);
                }
                assert forall|i: int, j: int| 0 <= i < j < tail.len() implies #[trigger] tail[i] < #[trigger] tail[j] by {
                    assert(tail[i] == ix[i + 1] && tail[j] == ix[j + 1]);
                }
            }
            let ms2 = match_term(name, needle.drop_first(), f + 1).unwrap();
            if tail.len() > 0 {
                assert(after_match(tail, f + 1) == ix.last() + 1);
            } else {
                assert(ix.len() == 1);
            }
        }
    }
}

/// Placing `a + b` from `pos` is placing `a` greedily and then `b` after it.
proof fn lemma_match_then(name: Seq<u8>, a: Seq<u8>, b: Seq<u8>, pos: int)
    requires
        0 <= pos <= name.len(),
    ensures
        subseq_from(name, a + b, pos) <==> (match_term(name, a, pos) matches Some(ms) && subseq_from(
            name,
            b,
            after_match(ms, pos),
        )),
        match_term(name, a, pos) matches Some(ms) ==> pos <= after_match(ms, pos) <= name.len(),
{
    lemma_match_greedy(name, a, pos);
    if subseq_from(name, a + b, pos) {
        let ix = choose|ix: Seq<int>| #[trigger] placement(name, a + b, pos, ix);
        let ia = ix.take(a.len() as int);
        let ib = ix.skip(a.len() as int);
        assert(placement(name, a, pos, ia)) by {
            assert forall|i: int| 0 <= i < ia.len() implies pos <= #[trigger] ia[i] < name.len() && name[ia[i]] == a[i] by {
                assert(ia[i] == ix[i] && (a + b)[i] == a[i]);
            }
        }
        let ms = match_term(name, a, pos).unwrap();
        assert(placement(name, b, after_match(ms, pos), ib)) by {
            assert forall|i: int| 0 <= i < ib.len() implies after_match(ms, pos) <= #[trigger] ib[i] < name.len() && name[ib[i]] == b[i] by {
                assert(ib[i] == ix[a.len() + i] && (a + b)[a.len() + i] == b[i]);
                if a.len() > 0 {
                    assert(ix[a.len() - 1] < ix[a.len() + i]);
                    assert(after_match(ia, pos) == ix[a.len() - 1] + 1);
                }
            }
            assert forall|i: int, j: int| 0 <= i < j < ib.len() implies #[trigger] ib[i] < #[trigger] ib[j] by {
                assert(ib[i] == ix[a.len() + i] && ib[j] == ix[a.len() + j]);
            }
        }
    }
    match match_term(name, a, pos) {
        Some(ms) => {
            if subseq_from(name, b, after_match(ms, pos)) {
                let ib = choose|ix: Seq<int>| #[trigger] placement(name, b, after_match(ms, pos), ix);
                let ix = ms + ib;
                assert(placement(name, a + b, pos, ix)) by {
                    assert forall|i: int| 0 <= i < ix.len() implies pos <= #[trigger] ix[i] < name.len() && name[ix[i]] == (a + b)[i] by {
                        if i < ms.len() {
                            assert(ix[i] == ms[i]);
                        } else {
                            assert(ix[i] == ib[i - ms.len()]);
                        }
                    }
                    assert forall|i: int, j: int| 0 <= i < j < ix.len() implies #[trigger] ix[i] < #[trigger] ix[j] by {
                        if j < ms.len() {
                            assert(ix[i] == ms[i] && ix[j] == ms[j]);
                        } else if i >= ms.len() {
                            assert(ix[i] == ib[i - ms.len()] && ix[j] == ib[j - ms.len()]);
                        } else {
                            assert(ix[i] == ms[i] && ix[j] == ib[j - ms.len()]);
                            assert(ms[i] <= ms.last());
                        }
                    }
                }
            }
        },
        None => {},
    }
}

proof fn lemma_terms_score(name: Seq<u8>, terms: Seq<Seq<u8>>, pos: int, acc: int)
    requires
        0 <= pos <= name.len(),
    ensures
        terms_score(name, terms, pos, acc) is Some <==> subseq_from(name, joined_terms(terms), pos),
    decreases terms.len(),
{
    if terms.len() == 0 {
        assert(placement(name, Seq::empty(), pos, Seq::empty()));
    } else {
        let t0 = terms[0];
        let rest = terms.drop_first();
        lemma_match_then(name, t0, joined_terms(rest), pos);
        if t0.len() == 0 {
            assert(t0 + joined_terms(rest) =~= joined_terms(rest));
            lemma_terms_score(name, rest, pos, acc);
        } else {
            match match_term(name, t0, pos) {
                Some(ms) => {
                    match term_step(name, t0, pos) {
                        Some((d, p)) => {
                            assert(p == after_match(ms, pos));
                            lemma_terms_score(name, rest, p, acc + d);
                        },
                        None => {},
                    }
                },
                None => {},
            }
        }
    }
}

/// A name gets a fuzzy score exactly when the terms, one after the other, occur in it
/// as a subsequence.
pub proof fn lemma_fuzzy_some(name: Seq<u8>, terms: Seq<Seq<u8>>)
    ensures
        fuzzy(name, terms) is Some <==> subseq_from(name, joined_terms(terms), 0),
{
    lemma_terms_score(name, terms, 0, 0);
}

/// The UTF-8 bytes of each term.
pub open spec fn term_bytes(terms: Seq<&str>) -> Seq<Seq<u8>> {
    Seq::new(terms.len(), |i: int| vstd::utf8::encode_utf8(terms[i]@))
}

/// Searches one term from `pos`: its score and the position after its last match.
fn score_term(name: &[u8], needle: &[u8], pos: usize) -> (r: Option<(i64, usize)>)
    requires
        pos <= name@.len(),
        name@.len() < 0x1_0000_0000_0000,
        needle@.len() > 0,
    ensures
        match term_step(name@, needle@, pos as int) {
            None => r is None,
            Some((d, p)) => r matches Some((rd, rp)) && rd == d && rp == p && pos <= p
                <= name@.len() && -256 <= d <= 100 + 10 * (p - pos),
        },
{
    let ghost nm = name@;
    let ghost nd = needle@;
    let mut ms: Vec<usize> = Vec::new();
    let ghost gms: Seq<int> = Seq::empty();
    let mut p: usize = pos;
    let mut j: usize = 0;
    assert(nd.skip(0) =~= nd);
    while j < needle.len()
        invariant
            j <= nd.len(),
            pos <= p <= nm.len(),
            name@ == nm,
            needle@ == nd,
            nm.len() < 0x1_0000_0000_0000,
            ms@.len() == gms.len(),
            gms.len() == j,
            gms.len() <= p - pos,
            forall|k: int| 0 <= k < gms.len() ==> #[trigger] gms[k] == ms@[k] as int,
            forall|k: int| 0 <= k < gms.len() ==> pos <= #[trigger] gms[k] < p,
            j > 0 ==> gms.last() == p - 1,
            match_term(nm, nd, pos as int) == match match_term(nm, nd.skip(j as int), p as int) {
                Some(rest) => Some(gms + rest),
                None => None,
            },
        decreases nd.len() - j,
    {
        let b = needle[j];
        proof {
            lemma_find_from(nm, b, p as int);
            assert(nd.skip(j as int)[0] == b);
            assert(nd.skip(j as int).drop_first() =~= nd.skip(j + 1));
        }
        let ghost p0 = p as int;
        while p < name.len() && name[p] != b
            invariant
                p0 <= p <= nm.len(),
                name@ == nm,
                find_from(nm, b, p0) == find_from(nm, b, p as int),
            decreases name.len() - p,
        {
            p += 1;
        }
        if p >= name.len() {
            return None;
        }
        proof {
            let q = p as int;
            assert(match_term(nm, nd.skip(j as int), p0) == match match_term(nm, nd.skip(j + 1), q + 1) {
                Some(ms2) => Some(seq![q] + ms2),
                None => None,
            });
            match match_term(nm, nd.skip(j + 1), q + 1) {
                Some(rest) => {
                    assert(gms + (seq![q] + rest) =~= gms.push(q) + rest);
                },
                None => {},
            }
            gms = gms.push(q);
        }
        ms.push(p);
        p += 1;
        j += 1;
    }
    proof {
        assert(nd.skip(nd.len() as int) =~= Seq::<u8>::empty());
        assert(gms + Seq::<int>::empty() =~= gms);
    }
    let mut consecutive_run = true;
    let mut k: usize = 0;
    while ms.len() > 0 && k < ms.len() - 1
        invariant
            ms@.len() == gms.len(),
            forall|q: int| 0 <= q < gms.len() ==> #[trigger] gms[q] < nm.len(),
            nm.len() < 0x1_0000_0000_0000,
            nm.len() == name.len(),
            name@ == nm,
            forall|q: int| 0 <= q < gms.len() ==> #[trigger] gms[q] == ms@[q] as int,
            k <= ms@.len(),
            consecutive_run == (forall|q: int| 0 <= q < k && q + 1 < gms.len() ==> #[trigger] gms[q + 1] == gms[q] + 1),
        decreases ms.len() - k,
    {
        proof {
            assert(gms[k as int] == ms@[k as int] as int);
            assert(gms[k as int] < nm.len());
        }
        let ok = ms[k + 1] == ms[k] + 1;
        proof {
            assert(ok == (gms[k + 1] == gms[k as int] + 1));
        }
        let ghost before = consecutive_run;
        if !ok {
            consecutive_run = false;
        }
        assert(consecutive_run == (forall|q: int| 0 <= q < k + 1 && q + 1 < gms.len() ==> #[trigger] gms[q + 1] == gms[q] + 1)) by {
            if consecutive_run {
                assert forall|q: int| 0 <= q < k + 1 && q + 1 < gms.len() implies #[trigger] gms[q + 1] == gms[q] + 1 by {
                    if q < k {
                        assert(before);
                    }
                }
            } else {
                if ok {
                    assert(!before);
                    let w = choose|q: int| 0 <= q < k && q + 1 < gms.len() && !(#[trigger] gms[q + 1] == gms[q] + 1);
                    assert(0 <= w < k + 1 && w + 1 < gms.len() && gms[w + 1] != gms[w] + 1);
                }
            }
        }
        k += 1;
    }
    assert(consecutive_run == consecutive(gms)) by {
        if consecutive_run {
            assert forall|q: int| 0 <= q < gms.len() - 1 implies #[trigger] gms[q + 1] == gms[q] + 1 by {
                assert(q < k || q + 1 >= gms.len());
            }
        }
    }
    let mut count: i64 = 0;
    let mut k: usize = 0;
    while k < ms.len()
        invariant
            ms@.len() == gms.len(),
            forall|q: int| 0 <= q < gms.len() ==> #[trigger] gms[q] == ms@[q] as int,
            forall|q: int| 0 <= q < gms.len() ==> pos <= #[trigger] gms[q] < p,
            p <= nm.len(),
            name@ == nm,
            k <= ms@.len(),
            count == boundary_count(nm, gms.take(k as int)),
            gms.len() <= nm.len(),
            nm.len() < 0x1_0000_0000_0000,
            0 <= count <= k,
        decreases ms.len() - k,
    {
        let m = ms[k];
        proof {
            assert(gms.take(k + 1).drop_last() =~= gms.take(k as int));
            assert(gms.take(k + 1).last() == gms[k as int]);
        }
        let boundary = if m == 0 {
            true
        } else {
            let c = name[m - 1];
            c == 95 || c == 45 || c == 32 || c == 46 || (65 <= c && c <= 90)
        };
        if boundary {
            count += 1;
        }
        k += 1;
    }
    proof {
        assert(gms.take(gms.len() as int) =~= gms);
    }
    let penalty: i64 = if pos < 256 { pos as i64 } else { 256 };
    let bonus: i64 = if consecutive_run { 100 } else { 0 };
    Some((bonus + 10 * count - penalty, p))
}

/// Scores how well `terms` appear, in order, as subsequences of `name` (both lowercase);
/// `None` when a term is missing. Consecutive runs and word starts score higher.
pub fn fuzzy_score(name: &str, terms: &[&str]) -> (r: Option<i64>)
    requires
        vstd::utf8::encode_utf8(name@).len() < 0x1_0000_0000_0000,
        terms@.len() < 0x1_0000_0000_0000,
    ensures
        fuzzy(vstd::utf8::encode_utf8(name@), term_bytes(terms@)) == match r {
            None => None,
            Some(v) => Some(v as int),
        },
{
    let bytes = name.as_bytes();
    let ghost nm = bytes@;
    let ghost ts = term_bytes(terms@);
    let mut acc: i64 = 0;
    let mut pos: usize = 0;
    let mut i: usize = 0;
    assert(ts.skip(0) =~= ts);
    while i < terms.len()
        invariant
            i <= terms@.len(),
            bytes@ == nm,
            nm == vstd::utf8::encode_utf8(name@),
            nm.len() < 0x1_0000_0000_0000,
            terms@.len() < 0x1_0000_0000_0000,
            ts == term_bytes(terms@),
            pos <= nm.len(),
            -256 * i <= acc <= 100 * i + 10 * pos,
            terms_score(nm, ts, 0, 0) == terms_score(nm, ts.skip(i as int), pos as int, acc as int),
        decreases terms.len() - i,
    {
        let t = terms[i].as_bytes();
        proof {
            assert(ts.skip(i as int)[0] == t@);
            assert(ts.skip(i as int).drop_first() =~= ts.skip(i + 1));
        }
        if t.len() == 0 {
        } else {
            match score_term(bytes, t, pos) {
                None => {
                    assert(term_step(nm, t@, pos as int) is None);
                    assert(terms_score(nm, ts.skip(i as int), pos as int, acc as int) is None);
                    return None;
                },
                Some((d, p)) => {
                    acc = acc + d;
                    pos = p;
                },
            }
        }
        i += 1;
    }
    proof {
        assert(ts.skip(i as int) =~= Seq::<Seq<u8>>::empty());
    }
    let n = terms.len() as i64;
    let half = (bytes.len() / 2) as i64;
    Some(acc - 8 * n - half)
}


/// The entries whose lowercase name contains `needle`, in order.
pub open spec fn substring_matches(s: Seq<Entry>, needle: Seq<char>) -> Seq<Entry>
    decreases s.len(),
{
    if s.len() == 0 {
        s
    } else {
        let r = substring_matches(s.drop_last(), needle);
        if crate::text::has_sub(crate::text::lowercase(s.last().name@), needle) {
            r.push(s.last())
        } else {
            r
        }
    }
}

/// Each entry paired with its fuzzy score, entries without a score dropped.
pub open spec fn scored(s: Seq<Entry>, terms: Seq<Seq<u8>>) -> Seq<(int, Entry)>
    decreases s.len(),
{
    if s.len() == 0 {
        Seq::empty()
    } else {
        let r = scored(s.drop_last(), terms);
        match fuzzy(vstd::utf8::encode_utf8(crate::text::lowercase(s.last().name@)), terms) {
            Some(v) => r.push((v, s.last())),
            None => r,
        }
    }
}

/// First position at or after `i` whose score is below `x`'s (or the length).
pub open spec fn rank_insert_from(s: Seq<(int, Entry)>, x: (int, Entry), i: int) -> int
    decreases s.len() - i,
{
    if i < 0 || i >= s.len() {
        s.len() as int
    } else if s[i].0 < x.0 {
        i
    } else {
        rank_insert_from(s, x, i + 1)
    }
}

/// Scored entries by descending score, equal scores keeping their order (stable).
pub open spec fn by_score(s: Seq<(int, Entry)>) -> Seq<(int, Entry)>
    decreases s.len(),
{
    if s.len() == 0 {
        s
    } else {
        let r = by_score(s.drop_last());
        r.insert(rank_insert_from(r, s.last(), 0), s.last())
    }
}

/// The UTF-8 bytes of each word.
pub open spec fn words_bytes(ws: Seq<Seq<char>>) -> Seq<Seq<u8>> {
    Seq::new(ws.len(), |i: int| vstd::utf8::encode_utf8(ws[i]))
}

/// The entries shown for a filter: all when it is empty; when its lowercase form is a
/// single word, those whose lowercase name contains it; otherwise those matching every
/// word fuzzily, best score first.
pub open spec fn filtered(s: Seq<Entry>, filter: Seq<char>) -> Seq<Entry> {
    if filter.len() == 0 {
        s
    } else {
        let needle = crate::text::lowercase(filter);
        let ws = crate::text::words(needle);
        if ws.len() == 1 && needle.len() > 0 {
            substring_matches(s, needle)
        } else {
            let ranked = by_score(scored(s, words_bytes(ws)));
            Seq::new(ranked.len(), |i: int| ranked[i].1)
        }
    }
}

proof fn lemma_rank_insert_bounds(s: Seq<(int, Entry)>, x: (int, Entry), i: int)
    requires
        0 <= i <= s.len(),
    ensures
        i <= rank_insert_from(s, x, i) <= s.len(),
    decreases s.len() - i,
{
    if i < s.len() && s[i].0 >= x.0 {
        lemma_rank_insert_bounds(s, x, i + 1);
    }
}

/// An empty filter shows the whole listing.
pub proof fn lemma_empty_filter(s: Seq<Entry>)
    ensures
        filtered(s, Seq::empty()) == s,
{
}

/// Whether scored entries are in descending score order.
pub open spec fn ranked(s: Seq<(int, Entry)>) -> bool {
    forall|i: int, j: int| 0 <= i < j < s.len() ==> (#[trigger] s[i]).0 >= (#[trigger] s[j]).0
}

proof fn lemma_rank_insert_props(s: Seq<(int, Entry)>, x: (int, Entry), i: int)
    requires
        0 <= i <= s.len(),
    ensures
        i <= rank_insert_from(s, x, i) <= s.len(),
        forall|k: int| i <= k < rank_insert_from(s, x, i) ==> (#[trigger] s[k]).0 >= x.0,
        rank_insert_from(s, x, i) < s.len() ==> s[rank_insert_from(s, x, i)].0 < x.0,
    decreases s.len() - i,
{
    if i < s.len() && s[i].0 >= x.0 {
        lemma_rank_insert_props(s, x, i + 1);
    }
}

/// Ranking puts better scores first and keeps every scored entry.
pub proof fn lemma_by_score(s: Seq<(int, Entry)>)
    ensures
        ranked(by_score(s)),
        by_score(s).to_multiset() == s.to_multiset(),
    decreases s.len(),
{
    if s.len() == 0 {
        return;
    }
    let r = by_score(s.drop_last());
    let x = s.last();
    lemma_by_score(s.drop_last());
    let p = rank_insert_from(r, x, 0);
    lemma_rank_insert_props(r, x, 0);
    let q = r.insert(p, x);
    assert forall|i: int, j: int| 0 <= i < j < q.len() implies (#[trigger] q[i]).0 >= (#[trigger] q[j]).0 by {
        if j < p {
            assert(q[i] == r[i] && q[j] == r[j]);
        } else if j == p {
            assert(q[i] == r[i] && q[j] == x);
        } else if i < p {
            assert(q[i] == r[i] && q[j] == r[j - 1]);
        } else if i == p {
            assert(q[i] == x && q[j] == r[j - 1]);
            if j - 1 > p {
                assert(r[p].0 >= r[j - 1].0);
            }
        } else {
            assert(q[i] == r[i - 1] && q[j] == r[j - 1]);
        }
    }
    vstd::seq_lib::to_multiset_insert(r, p, x);
    vstd::seq_lib::to_multiset_build(s.drop_last(), x);
    assert(s.drop_last().push(x) =~= s);
}

proof fn lemma_substring_matches(s: Seq<Entry>, needle: Seq<char>)
    ensures
        forall|i: int| 0 <= i < substring_matches(s, needle).len() ==> crate::text::has_sub(
            crate::text::lowercase((#[trigger] substring_matches(s, needle)[i]).name@),
            needle,
        ),
        substring_matches(s, needle).len() <= s.len(),
    decreases s.len(),
{
    if s.len() > 0 {
        lemma_substring_matches(s.drop_last(), needle);
    }
}

/// A one-word filter shows exactly the entries whose lowercase name contains it (as a
/// subsequence of the listing): each shown one contains it.
pub proof fn lemma_word_filter(s: Seq<Entry>, filter: Seq<char>)
    requires
        filter.len() > 0,
        crate::text::words(crate::text::lowercase(filter)).len() == 1,
        crate::text::lowercase(filter).len() > 0,
    ensures
        forall|i: int| 0 <= i < filtered(s, filter).len() ==> crate::text::has_sub(
            crate::text::lowercase((#[trigger] filtered(s, filter)[i]).name@),
            crate::text::lowercase(filter),
        ),
{
    lemma_substring_matches(s, crate::text::lowercase(filter));
}

fn rank_position(out: &Vec<(i64, Entry)>, x: &(i64, Entry)) -> (p: usize)
    ensures
        p == rank_insert_from(score_seq(out@), (x.0 as int, x.1), 0),
{
    let mut p: usize = 0;
    while p < out.len() && out[p].0 >= x.0
        invariant
            p <= out@.len(),
            rank_insert_from(score_seq(out@), (x.0 as int, x.1), 0) == rank_insert_from(score_seq(out@), (x.0 as int, x.1), p as int),
        decreases out.len() - p,
    {
        p += 1;
    }
    p
}

/// Scored pairs with the scores as mathematical integers.
pub open spec fn score_seq(s: Seq<(i64, Entry)>) -> Seq<(int, Entry)> {
    Seq::new(s.len(), |i: int| (s[i].0 as int, s[i].1))
}

proof fn lemma_by_score_len(s: Seq<(int, Entry)>)
    ensures
        by_score(s).len() == s.len(),
    decreases s.len(),
{
    if s.len() > 0 {
        lemma_by_score_len(s.drop_last());
        lemma_rank_insert_bounds(by_score(s.drop_last()), s.last(), 0);
    }
}

/// Sorts scored entries by descending score (stable).
fn sort_by_score(v: Vec<(i64, Entry)>) -> (r: Vec<(i64, Entry)>)
    ensures
        score_seq(r@) == by_score(score_seq(v@)),
{
    let ghost orig = v@;
    let mut out: Vec<(i64, Entry)> = Vec::new();
    for x in it: v.into_iter()
        invariant
            it.seq() == orig,
            score_seq(out@) == by_score(score_seq(orig.take(it.index() as int))),
    {
        let ghost k = it.index() as int;
        proof {
            assert(score_seq(orig.take(k + 1)).drop_last() =~= score_seq(orig.take(k)));
            assert(score_seq(orig.take(k + 1)).last() == (x.0 as int, x.1));
            lemma_by_score_len(score_seq(orig.take(k)));
            lemma_rank_insert_bounds(score_seq(out@), (x.0 as int, x.1), 0);
        }
        let p = rank_position(&out, &x);
        let ghost before = out@;
        out.insert(p, x);
        proof {
            assert(score_seq(out@) =~= score_seq(before).insert(p as int, (x.0 as int, x.1)));
        }
    }
    proof {
        assert(orig.take(orig.len() as int) =~= orig);
    }
    out
}


/// Every lowercase name is short enough for fuzzy scoring without overflow.
pub open spec fn names_fit(s: Seq<Entry>) -> bool {
    forall|i: int| 0 <= i < s.len() ==> vstd::utf8::encode_utf8(crate::text::lowercase(#[trigger] s[i].name@)).len()
        < 0x1_0000_0000_0000
}

/// The lowercase filter is short enough for fuzzy scoring without overflow.
pub open spec fn filter_fits(filter: Seq<char>) -> bool {
    filter.len() == 0 || crate::text::lowercase(filter).len() < 0x1_0000_0000_0000
}

/// The entries whose lowercase name (`lows`, by position) contains `needle`, in order.
pub open spec fn substring_matches_in(s: Seq<Entry>, lows: Seq<Seq<char>>, needle: Seq<char>) -> Seq<Entry>
    decreases s.len(),
{
    if s.len() == 0 {
        s
    } else {
        let r = substring_matches_in(s.drop_last(), lows, needle);
        if crate::text::has_sub(lows[s.len() - 1], needle) {
            r.push(s.last())
        } else {
            r
        }
    }
}

/// Each entry paired with the fuzzy score of its lowercase name (`lows`, by position),
/// entries without a score dropped.
pub open spec fn scored_in(s: Seq<Entry>, lows: Seq<Seq<char>>, terms: Seq<Seq<u8>>) -> Seq<(int, Entry)>
    decreases s.len(),
{
    if s.len() == 0 {
        Seq::empty()
    } else {
        let r = scored_in(s.drop_last(), lows, terms);
        match fuzzy(vstd::utf8::encode_utf8(lows[s.len() - 1]), terms) {
            Some(v) => r.push((v, s.last())),
            None => r,
        }
    }
}

/// The entries shown for a non-empty filter whose lowercase form is `needle`, where
/// `lows` are the lowercase names: when `needle` is a single word, those whose
/// lowercase name contains it; otherwise those matching every word fuzzily, best
/// score first.
pub open spec fn filtered_lowered(s: Seq<Entry>, lows: Seq<Seq<char>>, needle: Seq<char>) -> Seq<Entry> {
    let ws = crate::text::words(needle);
    if ws.len() == 1 && needle.len() > 0 {
        substring_matches_in(s, lows, needle)
    } else {
        let ranked = by_score(scored_in(s, lows, words_bytes(ws)));
        Seq::new(ranked.len(), |i: int| ranked[i].1)
    }
}

/// The lowercase names of a listing.
pub open spec fn lowered_names(s: Seq<Entry>) -> Seq<Seq<char>> {
    Seq::new(s.len(), |i: int| crate::text::lowercase(s[i].name@))
}

/// Every lowercase name is short enough for fuzzy scoring without overflow.
pub open spec fn lows_fit(lows: Seq<String>) -> bool {
    forall|i: int| 0 <= i < lows.len() ==> vstd::utf8::encode_utf8((#[trigger] lows[i])@).len() < 0x1_0000_0000_0000
}

proof fn lemma_lowered_matches(s: Seq<Entry>, lows: Seq<Seq<char>>, needle: Seq<char>, terms: Seq<Seq<u8>>)
    requires
        lows.len() >= s.len(),
        forall|i: int| 0 <= i < s.len() ==> lows[i] == crate::text::lowercase(#[trigger] s[i].name@),
    ensures
        substring_matches_in(s, lows, needle) == substring_matches(s, needle),
        scored_in(s, lows, terms) == scored(s, terms),
    decreases s.len(),
{
    if s.len() > 0 {
        let t = s.drop_last();
        assert forall|i: int| 0 <= i < t.len() implies lows[i] == crate::text::lowercase(#[trigger] t[i].name@) by {
            assert(t[i] == s[i]);
        }
        lemma_lowered_matches(t, lows, needle, terms);
        assert(lows[s.len() - 1] == crate::text::lowercase(s[s.len() - 1].name@));
    }
}

/// Applies a name filter to an (arranged) listing.
pub fn filter_entries(entries: Vec<Entry>, filter: &str) -> (r: Vec<Entry>)
    requires
        names_fit(entries@),
        filter_fits(filter@),
    ensures
        r@ == filtered(entries@, filter@),
{
    if filter.is_empty() {
        return entries;
    }
    let lower = to_lowercase(filter);
    let mut lows: Vec<String> = Vec::new();
    let mut i: usize = 0;
    while i < entries.len()
        invariant
            i <= entries@.len(),
            lows@.len() == i,
            forall|q: int| 0 <= q < i ==> (#[trigger] lows@[q])@ == crate::text::lowercase(entries@[q].name@),
        decreases entries.len() - i,
    {
        lows.push(to_lowercase(entries[i].name.as_str()));
        i += 1;
    }
    proof {
        let lw = lows@.map_values(|l: String| l@);
        assert forall|q: int| 0 <= q < lows@.len() implies vstd::utf8::encode_utf8((#[trigger] lows@[q])@).len()
            < 0x1_0000_0000_0000 by {
            assert(vstd::utf8::encode_utf8(crate::text::lowercase(entries@[q].name@)).len() < 0x1_0000_0000_0000);
        }
        assert forall|q: int| 0 <= q < entries@.len() implies lw[q] == crate::text::lowercase(
            #[trigger] entries@[q].name@,
        ) by {
            assert(lw[q] == lows@[q]@);
        }
        let ws = crate::text::words(lower@);
        lemma_lowered_matches(entries@, lw, lower@, words_bytes(ws));
    }
    filter_lowered(entries, &lows, lower.as_str())
}

/// Applies the lowercase form `lower` of a non-empty name filter to an (arranged)
/// listing whose lowercase names are `lows`, one per entry.
pub fn filter_lowered(entries: Vec<Entry>, lows: &Vec<String>, lower: &str) -> (r: Vec<Entry>)
    requires
        lows@.len() == entries@.len(),
        lows_fit(lows@),
        lower@.len() < 0x1_0000_0000_0000,
    ensures
        r@ == filtered_lowered(entries@, lows@.map_values(|l: String| l@), lower@),
{
    let ghost lw = lows@.map_values(|l: String| l@);
    let needle = chars_of(lower);
    let ws = split_words(&needle);
    let ghost orig = entries@;
    if ws.len() == 1 && needle.len() > 0 {
        let mut kept: Vec<Entry> = Vec::new();
        let mut idx: usize = 0;
        for e in it: entries.into_iter()
            invariant
                it.seq() == orig,
                idx == it.index(),
                lows@.len() == orig.len(),
                lw == lows@.map_values(|l: String| l@),
                needle@ == lower@,
                kept@ == substring_matches_in(orig.take(it.index() as int), lw, needle@),
        {
            let ghost k = it.index() as int;
            proof {
                assert(orig.take(k + 1).drop_last() =~= orig.take(k));
                assert(orig.take(k + 1).last() == orig[k]);
            }
            let lc = chars_of(lows[idx].as_str());
            if contains_chars(&lc, &needle) {
                kept.push(e);
            }
            assert(idx < lows.len());
            idx += 1;
        }
        proof {
            assert(orig.take(orig.len() as int) =~= orig);
        }
        return kept;
    }
    proof {
        crate::text::lemma_words_len(needle@, 0);
    }
    let mut word_strings: Vec<String> = Vec::new();
    let mut k: usize = 0;
    while k < ws.len()
        invariant
            k <= ws@.len(),
            word_strings@.len() == k,
            forall|q: int| 0 <= q < k ==> #[trigger] word_strings@[q]@ == ws@[q]@,
        decreases ws.len() - k,
    {
        word_strings.push(string_of(&ws[k]));
        k += 1;
    }
    let mut terms: Vec<&str> = Vec::new();
    let mut k: usize = 0;
    while k < word_strings.len()
        invariant
            k <= word_strings@.len(),
            terms@.len() == k,
            forall|q: int| 0 <= q < k ==> #[trigger] terms@[q]@ == word_strings@[q]@,
        decreases word_strings.len() - k,
    {
        terms.push(word_strings[k].as_str());
        k += 1;
    }
    let ghost wsv = crate::text::words(needle@);
    assert(term_bytes(terms@) =~= words_bytes(wsv));
    let mut pairs: Vec<(i64, Entry)> = Vec::new();
    let mut idx: usize = 0;
    for e in it: entries.into_iter()
        invariant
            it.seq() == orig,
            idx == it.index(),
            lows@.len() == orig.len(),
            lows_fit(lows@),
            lw == lows@.map_values(|l: String| l@),
            terms@.len() < 0x1_0000_0000_0000,
            term_bytes(terms@) == words_bytes(wsv),
            score_seq(pairs@) == scored_in(orig.take(it.index() as int), lw, words_bytes(wsv)),
    {
        let ghost k = it.index() as int;
        proof {
            assert(orig.take(k + 1).drop_last() =~= orig.take(k));
            assert(orig.take(k + 1).last() == orig[k]);
            assert(orig[k] == e);
        }
        let ln = &lows[idx];
        let ghost before = pairs@;
        let ghost f = fuzzy(vstd::utf8::encode_utf8(lw[k]), words_bytes(wsv));
        assert(scored_in(orig.take(k + 1), lw, words_bytes(wsv)) == match f {
            Some(v) => scored_in(orig.take(k), lw, words_bytes(wsv)).push((v, e)),
            None => scored_in(orig.take(k), lw, words_bytes(wsv)),
        });
        match fuzzy_score(ln.as_str(), terms.as_slice()) {
            Some(v) => {
                pairs.push((v, e));
                proof {
                    assert(f == Some(v as int));
                    assert(score_seq(pairs@) =~= score_seq(before).push((v as int, e)));
                }
            },
            None => {
                assert(f is None);
            },
        }
        assert(idx < lows.len());
        idx += 1;
    }
    proof {
        assert(orig.take(orig.len() as int) =~= orig);
    }
    let sorted = sort_by_score(pairs);
    let ghost ranked = by_score(scored_in(orig, lw, words_bytes(wsv)));
    let mut out: Vec<Entry> = Vec::new();
    for pair in it: sorted.into_iter()
        invariant
            score_seq(it.seq()) == ranked,
            out@ == Seq::new(it.index() as nat, |i: int| ranked[i].1),
    {
        let ghost k = it.index() as int;
        proof {
            assert(ranked[k].1 == pair.1);
        }
        out.push(pair.1);
        proof {
            assert(out@ =~= Seq::new((k + 1) as nat, |i: int| ranked[i].1));
        }
    }
    proof {
        lemma_by_score_len(scored_in(orig, lw, words_bytes(wsv)));
    }
    out
}

} // verus!
