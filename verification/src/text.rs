//! Shared text primitives: what counts as a "word", and kebab-casing.
//!
//! A word is a maximal run of Unicode alphanumeric characters, lowercased.
//! [`word_bag`] and [`words`] share that definition so the set-based and the
//! order-based rules cannot drift apart on tokenization.

use vstd::prelude::*;
use crate::chars::{
    chars_of, is_alphanumeric, is_whitespace, unicode_whitespace, string_of, to_lowercase,
    unicode_alphanumeric, unicode_lowercase, ascii_alphanumeric,
};
pub use crate::chars::ascii_lower;

verus! {

/// The maximal runs of consecutive characters of `s` satisfying `p`, in
/// order (`s.split(|c| !p(c)).filter(|w| !w.is_empty())`).
pub open spec fn runs(s: Seq<char>, p: spec_fn(char) -> bool) -> Seq<Seq<char>>
    decreases s.len(),
{
    if s.len() == 0 {
        Seq::empty()
    } else {
        let prev = runs(s.drop_last(), p);
        if !p(s.last()) {
            prev
        } else if s.len() >= 2 && p(s[s.len() - 2]) {
            prev.update(prev.len() - 1, prev.last().push(s.last()))
        } else {
            prev.push(seq![s.last()])
        }
    }
}

/// `words` joined by `sep` (`[..].join(sep)`).
pub open spec fn join(words: Seq<Seq<char>>, sep: char) -> Seq<char>
    decreases words.len(),
{
    if words.len() == 0 {
        Seq::empty()
    } else if words.len() == 1 {
        words[0]
    } else {
        join(words.drop_last(), sep).push(sep) + words.last()
    }
}

/// `ws` joined with `sep` between entries (`[..].join(sep)`).
pub open spec fn join_sep(ws: Seq<Seq<char>>, sep: Seq<char>) -> Seq<char>
    decreases ws.len(),
{
    if ws.len() == 0 {
        Seq::empty()
    } else if ws.len() == 1 {
        ws[0]
    } else {
        join_sep(ws.drop_last(), sep) + sep + ws.last()
    }
}

/// The lowercased alphanumeric words of `text`, in order.
pub open spec fn words_of(text: Seq<char>) -> Seq<Seq<char>> {
    runs(text, |c: char| unicode_alphanumeric(c)).map_values(|w: Seq<char>| unicode_lowercase(w))
}

/// The views of a vector of strings.
pub open spec fn views(v: Seq<String>) -> Seq<Seq<char>> {
    v.map_values(|w: String| w@)
}

/// Every run is non-empty and made only of characters satisfying `p`; a run
/// is non-empty exactly when the last character satisfies `p`.
pub proof fn lemma_runs_shape(s: Seq<char>, p: spec_fn(char) -> bool)
    ensures
        forall|k: int| 0 <= k < runs(s, p).len() ==> #[trigger] runs(s, p)[k].len() > 0,
        forall|k: int, j: int|
            0 <= k < runs(s, p).len() && 0 <= j < runs(s, p)[k].len() ==> p(
                #[trigger] runs(s, p)[k][j],
            ),
        s.len() > 0 && p(s.last()) ==> runs(s, p).len() > 0,
    decreases s.len(),
{
    if s.len() > 0 {
        lemma_runs_shape(s.drop_last(), p);
        let prev = runs(s.drop_last(), p);
        if p(s.last()) && s.len() >= 2 && p(s[s.len() - 2]) {
            assert(s.drop_last().last() == s[s.len() - 2]);
        }
    }
}

/// A class of characters that [`runs_of`] can group by.
#[derive(Clone, Copy, PartialEq, Eq, Structural)]
pub enum CharClass {
    /// Unicode alphanumeric characters.
    Alphanumeric,
    /// Every character but `/` (path components).
    NotSlash,
    /// Every character but Unicode whitespace (`split_whitespace`).
    NotWhitespace,
}

pub open spec fn class_pred(k: CharClass) -> spec_fn(char) -> bool {
    match k {
        CharClass::Alphanumeric => |c: char| unicode_alphanumeric(c),
        CharClass::NotSlash => |c: char| c != '/',
        CharClass::NotWhitespace => |c: char| !unicode_whitespace(c),
    }
}

fn in_class(k: CharClass, c: char) -> (r: bool)
    ensures
        r == class_pred(k)(c),
{
    match k {
        CharClass::Alphanumeric => is_alphanumeric(c),
        CharClass::NotSlash => c != '/',
        CharClass::NotWhitespace => !is_whitespace(c),
    }
}

/// The views of a vector of character vectors.
pub open spec fn char_views(v: Seq<Vec<char>>) -> Seq<Seq<char>> {
    v.map_values(|w: Vec<char>| w@)
}

/// The maximal runs of characters of class `k` in `cs`.
pub fn runs_of(cs: &Vec<char>, k: CharClass) -> (r: Vec<Vec<char>>)
    ensures
        char_views(r@) == runs(cs@, class_pred(k)),
{
    let ghost p = class_pred(k);
    let mut done: Vec<Vec<char>> = Vec::new();
    let mut cur: Vec<char> = Vec::new();
    let mut i: usize = 0;
    while i < cs.len()
        invariant
            i <= cs.len(),
            p == class_pred(k),
            cur@.len() > 0 ==> runs(cs@.take(i as int), p) == char_views(done@).push(cur@),
            cur@.len() == 0 ==> runs(cs@.take(i as int), p) == char_views(done@),
            cur@.len() > 0 <==> (i > 0 && p(cs@[i - 1])),
        decreases cs.len() - i,
    {
        let c = cs[i];
        let a = in_class(k, c);
        let ghost t = cs@.take(i + 1);
        let ghost prev = runs(cs@.take(i as int), p);
        let ghost old_cur = cur@;
        let ghost old_done = char_views(done@);
        proof {
            assert(t.drop_last() =~= cs@.take(i as int));
            assert(t.last() == c);
            if i > 0 {
                assert(t[t.len() - 2] == cs@[i - 1]);
            }
            assert(runs(t, p) == (if !p(t.last()) {
                prev
            } else if t.len() >= 2 && p(t[t.len() - 2]) {
                prev.update(prev.len() - 1, prev.last().push(t.last()))
            } else {
                prev.push(seq![t.last()])
            }));
        }
        if a {
            cur.push(c);
            proof {
                if old_cur.len() > 0 {
                    assert(runs(t, p) =~= old_done.push(old_cur.push(c)));
                } else {
                    assert(cur@ =~= seq![c]);
                }
            }
        } else if cur.len() > 0 {
            let finished = cur;
            cur = Vec::new();
            done.push(finished);
            proof {
                assert(char_views(done@) =~= old_done.push(old_cur));
            }
        }
        i += 1;
    }
    if cur.len() > 0 {
        let ghost old_done = char_views(done@);
        done.push(cur);
        proof {
            assert(char_views(done@) =~= old_done.push(cur@));
        }
    }
    proof {
        assert(cs@.take(cs.len() as int) =~= cs@);
    }
    done
}

/// Tokenize `text` into lowercased alphanumeric words, in order.
pub fn words(text: &str) -> (r: Vec<String>)
    ensures
        views(r@) == words_of(text@),
{
    let cs = chars_of(text);
    let rs = runs_of(&cs, CharClass::Alphanumeric);
    let ghost raw = char_views(rs@);
    let mut out: Vec<String> = Vec::new();
    let mut i: usize = 0;
    while i < rs.len()
        invariant
            i <= rs.len(),
            raw == char_views(rs@),
            views(out@) == raw.take(i as int).map_values(|w: Seq<char>| unicode_lowercase(w)),
        decreases rs.len() - i,
    {
        let w = string_of(&rs[i]);
        let lw = to_lowercase(w.as_str());
        let ghost before = views(out@);
        out.push(lw);
        proof {
            assert(views(out@) =~= before.push(lw@));
            assert(raw[i as int] == rs@[i as int]@);
            assert(raw.take(i + 1).map_values(|w: Seq<char>| unicode_lowercase(w)) =~= raw.take(
                i as int,
            ).map_values(|w: Seq<char>| unicode_lowercase(w)).push(unicode_lowercase(raw[i as int])));
        }
        i += 1;
    }
    proof {
        assert(raw.take(rs.len() as int) =~= raw);
        assert(class_pred(CharClass::Alphanumeric) == (|c: char| unicode_alphanumeric(c)));
    }
    out
}

/// `s` with later repeats removed, keeping first occurrences.
pub open spec fn dedup(s: Seq<Seq<char>>) -> Seq<Seq<char>>
    decreases s.len(),
{
    if s.len() == 0 {
        s
    } else if dedup(s.drop_last()).contains(s.last()) {
        dedup(s.drop_last())
    } else {
        dedup(s.drop_last()).push(s.last())
    }
}

/// Removing repeats leaves each entry once and keeps the same entries.
pub proof fn lemma_dedup(s: Seq<Seq<char>>)
    ensures
        dedup(s).no_duplicates(),
        forall|w: Seq<char>| #[trigger] dedup(s).contains(w) <==> s.contains(w),
    decreases s.len(),
{
    if s.len() > 0 {
        let d = dedup(s.drop_last());
        lemma_dedup(s.drop_last());
        assert forall|w: Seq<char>| #[trigger] dedup(s).contains(w) <==> s.contains(w) by {
            if s.drop_last().contains(w) {
                let k = choose|k: int| 0 <= k < s.drop_last().len() && s.drop_last()[k] == w;
                assert(s[k] == w);
            }
            if s.contains(w) {
                let k = choose|k: int| 0 <= k < s.len() && s[k] == w;
                if k < s.len() - 1 {
                    assert(s.drop_last()[k] == w);
                }
            }
            if !d.contains(s.last()) {
                if dedup(s).contains(w) {
                    let k = choose|k: int| 0 <= k < dedup(s).len() && dedup(s)[k] == w;
                    if k < d.len() {
                        assert(d[k] == w);
                    }
                }
                if d.contains(w) {
                    let k = choose|k: int| 0 <= k < d.len() && d[k] == w;
                    assert(dedup(s)[k] == w);
                }
                assert(dedup(s)[d.len() as int] == s.last());
            }
        }
    }
}

/// How many entries of `ws` occur in `pool`.
pub open spec fn count_in(ws: Seq<Seq<char>>, pool: Seq<Seq<char>>) -> nat
    decreases ws.len(),
{
    if ws.len() == 0 {
        0
    } else {
        count_in(ws.drop_last(), pool) + if pool.contains(ws.last()) {
            1nat
        } else {
            0nat
        }
    }
}

/// Whether `w` is one of `v`.
pub fn contains_word(v: &Vec<String>, w: &String) -> (r: bool)
    ensures
        r == views(v@).contains(w@),
{
    let mut i: usize = 0;
    while i < v.len()
        invariant
            i <= v.len(),
            forall|j: int| 0 <= j < i ==> v@[j]@ != w@,
        decreases v.len() - i,
    {
        if v[i] == *w {
            proof {
                assert(views(v@)[i as int] == w@);
            }
            return true;
        }
        i += 1;
    }
    proof {
        if views(v@).contains(w@) {
            let k = choose|k: int| 0 <= k < views(v@).len() && views(v@)[k] == w@;
            assert(v@[k]@ == w@);
        }
    }
    false
}

/// Tokenize `text` into the set of its lowercased alphanumeric words, each
/// listed once, in order of first occurrence.
pub fn word_bag(text: &str) -> (r: Vec<String>)
    ensures
        views(r@) == dedup(words_of(text@)),
{
    let all = words(text);
    distinct(&all)
}

proof fn lemma_count_in_bound(ws: Seq<Seq<char>>, pool: Seq<Seq<char>>)
    ensures
        count_in(ws, pool) <= ws.len(),
    decreases ws.len(),
{
    if ws.len() > 0 {
        lemma_count_in_bound(ws.drop_last(), pool);
    }
}

/// How many entries of `a` are also in `b`.
pub fn shared_count(a: &Vec<String>, b: &Vec<String>) -> (n: usize)
    ensures
        n == count_in(views(a@), views(b@)),
        n <= a.len(),
{
    let ghost va = views(a@);
    let mut n: usize = 0;
    let mut i: usize = 0;
    while i < a.len()
        invariant
            i <= a.len(),
            va == views(a@),
            n == count_in(va.take(i as int), views(b@)),
            n <= i,
        decreases a.len() - i,
    {
        proof {
            assert(va.take(i + 1).drop_last() =~= va.take(i as int));
            assert(va.take(i + 1).last() == a@[i as int]@);
        }
        if contains_word(b, &a[i]) {
            n += 1;
        }
        i += 1;
    }
    proof {
        assert(va.take(a.len() as int) =~= va);
    }
    n
}

/// The Jaccard similarity of two word bags (sets of words, each listed
/// once) as an exact fraction `(shared, union)`: how many entries of `a`
/// are in `b`, over the size of their union. Both are zero when both bags
/// are empty.
pub fn jaccard(a: &Vec<String>, b: &Vec<String>) -> (r: (usize, u128))
    requires
        views(a@).no_duplicates(),
        views(b@).no_duplicates(),
    ensures
        r.0 == count_in(views(a@), views(b@)),
        r.1 == a.len() + b.len() - count_in(views(b@), views(a@)),
{
    let shared = shared_count(a, b);
    let back = shared_count(b, a);
    (shared, a.len() as u128 + (b.len() - back) as u128)
}

/// Every entry of `ws` is in `pool`: all of them count.
pub proof fn lemma_count_in_all(ws: Seq<Seq<char>>, pool: Seq<Seq<char>>)
    requires
        forall|i: int| 0 <= i < ws.len() ==> pool.contains(#[trigger] ws[i]),
    ensures
        count_in(ws, pool) == ws.len(),
    decreases ws.len(),
{
    if ws.len() > 0 {
        assert(pool.contains(ws[ws.len() - 1]));
        lemma_count_in_all(ws.drop_last(), pool);
    }
}

/// No entry of `ws` is in `pool`: none count.
pub proof fn lemma_count_in_none(ws: Seq<Seq<char>>, pool: Seq<Seq<char>>)
    requires
        forall|i: int| 0 <= i < ws.len() ==> !pool.contains(#[trigger] ws[i]),
    ensures
        count_in(ws, pool) == 0,
    decreases ws.len(),
{
    if ws.len() > 0 {
        assert(!pool.contains(ws[ws.len() - 1]));
        lemma_count_in_none(ws.drop_last(), pool);
    }
}

/// A bag is fully similar to itself: everything is shared and the union is
/// the bag (for a non-empty bag, a similarity of one).
pub proof fn jaccard_of_a_bag_with_itself(a: Seq<Seq<char>>)
    ensures
        count_in(a, a) == a.len(),
{
    assert forall|i: int| 0 <= i < a.len() implies a.contains(#[trigger] a[i]) by {}
    lemma_count_in_all(a, a);
}

/// Bags with no entry in common share nothing, and their union is both
/// bags together (a similarity of zero; zero over zero when both are
/// empty, which [`jaccard`] reports as such rather than as a quotient).
pub proof fn jaccard_of_disjoint_bags(a: Seq<Seq<char>>, b: Seq<Seq<char>>)
    requires
        forall|i: int| 0 <= i < a.len() ==> !b.contains(#[trigger] a[i]),
    ensures
        count_in(a, b) == 0,
        count_in(b, a) == 0,
{
    lemma_count_in_none(a, b);
    assert forall|j: int| 0 <= j < b.len() implies !a.contains(#[trigger] b[j]) by {
        if a.contains(b[j]) {
            let k = choose|k: int| 0 <= k < a.len() && a[k] == b[j];
            assert(b.contains(a[k]));
        }
    }
    lemma_count_in_none(b, a);
}

/// For words listed once each, how many are in `pool` is the size of the
/// intersection of the two as sets.
proof fn lemma_count_in_is_intersection(a: Seq<Seq<char>>, b: Seq<Seq<char>>)
    requires
        a.no_duplicates(),
    ensures
        count_in(a, b) == a.to_set().intersect(b.to_set()).len(),
    decreases a.len(),
{
    broadcast use vstd::set::group_set_axioms, vstd::seq_lib::seq_to_set_is_finite;

    if a.len() == 0 {
        assert(a.to_set().intersect(b.to_set()) =~= Set::<Seq<char>>::empty());
    } else {
        let p = a.drop_last();
        let x = a.last();
        assert(p.no_duplicates()) by {
            assert forall|i: int, j: int| 0 <= i < p.len() && 0 <= j < p.len() && i != j implies p[i]
                != p[j] by {
                assert(p[i] == a[i] && p[j] == a[j]);
            }
        }
        lemma_count_in_is_intersection(p, b);
        let ip = p.to_set().intersect(b.to_set());
        assert(!p.contains(x)) by {
            if p.contains(x) {
                let k = choose|k: int| 0 <= k < p.len() && p[k] == x;
                assert(a[k] == a[a.len() - 1]);
            }
        }
        assert forall|y: Seq<char>| #[trigger] a.contains(y) <==> (p.contains(y) || y == x) by {
            if a.contains(y) {
                let k = choose|k: int| 0 <= k < a.len() && a[k] == y;
                if k < p.len() {
                    assert(p[k] == y);
                }
            }
            if p.contains(y) {
                let k = choose|k: int| 0 <= k < p.len() && p[k] == y;
                assert(a[k] == y);
            }
            assert(a[a.len() - 1] == x);
        }
        if b.contains(x) {
            assert(a.to_set().intersect(b.to_set()) =~= ip.insert(x));
            assert(!ip.contains(x));
        } else {
            assert(a.to_set().intersect(b.to_set()) =~= ip);
        }
    }
}

/// For word bags (each word listed once), what [`jaccard`] computes is the
/// Jaccard index of the two sets: the shared count is the size of their
/// intersection, the same whichever bag comes first; the union count is
/// the size of their union; the shared count is at most the union count;
/// and the union count is zero only when both bags are empty.
pub proof fn jaccard_is_the_set_similarity(a: Seq<Seq<char>>, b: Seq<Seq<char>>)
    requires
        a.no_duplicates(),
        b.no_duplicates(),
    ensures
        count_in(a, b) == a.to_set().intersect(b.to_set()).len(),
        count_in(a, b) == count_in(b, a),
        a.len() + b.len() - count_in(b, a) == a.to_set().union(b.to_set()).len(),
        count_in(a, b) <= a.len() + b.len() - count_in(b, a),
        (a.len() + b.len() - count_in(b, a) == 0) <==> (a.len() == 0 && b.len() == 0),
{
    broadcast use vstd::set::group_set_axioms, vstd::seq_lib::seq_to_set_is_finite;

    lemma_count_in_is_intersection(a, b);
    lemma_count_in_is_intersection(b, a);
    assert(b.to_set().intersect(a.to_set()) =~= a.to_set().intersect(b.to_set()));
    a.unique_seq_to_set();
    b.unique_seq_to_set();
    vstd::set_lib::lemma_set_intersect_union_lens(a.to_set(), b.to_set());
    lemma_count_in_bound(a, b);
    lemma_count_in_bound(b, a);
    if a.len() == 0 {
        assert forall|i: int| 0 <= i < b.len() implies !a.contains(#[trigger] b[i]) by {}
        lemma_count_in_none(b, a);
    }
}

/// `v` with later repeats removed, keeping first occurrences.
pub fn distinct(v: &Vec<String>) -> (r: Vec<String>)
    ensures
        views(r@) == dedup(views(v@)),
{
    let mut out: Vec<String> = Vec::new();
    let mut i: usize = 0;
    while i < v.len()
        invariant
            i <= v.len(),
            views(out@) == dedup(views(v@.take(i as int))),
        decreases v.len() - i,
    {
        proof {
            assert(views(v@.take(i + 1)).drop_last() =~= views(v@.take(i as int)));
            assert(views(v@.take(i + 1)).last() == v@[i as int]@);
        }
        if !contains_word(&out, &v[i]) {
            let ghost before = views(out@);
            out.push(v[i].clone());
            proof {
                assert(views(out@) =~= before.push(v@[i as int]@));
            }
        }
        i += 1;
    }
    proof {
        assert(v@.take(v.len() as int) =~= v@);
    }
    out
}

/// The kebab-case rewrite of `s`: its maximal runs of ASCII letters and
/// digits, ASCII-lowercased, joined by single hyphens.
pub open spec fn kebab_of(s: Seq<char>) -> Seq<char> {
    join(
        runs(s, |c: char| ascii_alphanumeric(c)).map_values(
            |w: Seq<char>| w.map_values(|c: char| ascii_lower(c)),
        ),
        '-',
    )
}

/// Whether `s` is kebab-case: non-empty, only lowercase ASCII letters,
/// digits and hyphens, no leading, trailing, or doubled hyphen.
pub open spec fn kebab_spec(s: Seq<char>) -> bool {
    &&& s.len() > 0
    &&& s[0] != '-'
    &&& s.last() != '-'
    &&& forall|i: int| 0 <= i < s.len() ==> kebab_char(#[trigger] s[i])
    &&& forall|i: int| 0 <= i < s.len() - 1 ==> !(#[trigger] s[i] == '-' && s[i + 1] == '-')
}

pub open spec fn kebab_char(c: char) -> bool {
    ('a' <= c <= 'z') || ('0' <= c <= '9') || c == '-'
}

fn exec_ascii_lower(c: char) -> (r: char)
    ensures
        r == ascii_lower(c),
{
    if 'A' <= c && c <= 'Z' {
        ((c as u8) + 32) as char
    } else {
        c
    }
}

fn exec_ascii_alphanumeric(c: char) -> (r: bool)
    ensures
        r == ascii_alphanumeric(c),
{
    ('a' <= c && c <= 'z') || ('A' <= c && c <= 'Z') || ('0' <= c && c <= '9')
}


pub proof fn lemma_join_push(ws: Seq<Seq<char>>, w: Seq<char>, sep: char)
    ensures
        ws.len() == 0 ==> join(ws.push(w), sep) == w,
        ws.len() > 0 ==> join(ws.push(w), sep) == join(ws, sep).push(sep) + w,
{
    assert(ws.push(w).drop_last() =~= ws);
}

pub proof fn lemma_join_extend_last(ws: Seq<Seq<char>>, c: char, sep: char)
    requires
        ws.len() > 0,
    ensures
        join(ws.update(ws.len() - 1, ws.last().push(c)), sep) == join(ws, sep).push(c),
{
    let u = ws.update(ws.len() - 1, ws.last().push(c));
    if ws.len() == 1 {
        assert(u[0] == ws[0].push(c));
    } else {
        assert(u.drop_last() =~= ws.drop_last());
        assert(u.last() == ws.last().push(c));
        assert(join(ws.drop_last(), sep).push(sep) + ws.last().push(c) =~= (join(
            ws.drop_last(),
            sep,
        ).push(sep) + ws.last()).push(c));
    }
}

pub proof fn lemma_join_len(ws: Seq<Seq<char>>, sep: char)
    requires
        ws.len() > 0,
    ensures
        join(ws, sep).len() >= ws.last().len(),
{
}

/// Rewrite `s` into kebab-case: ASCII-lowercased alphanumerics, every other
/// character run collapsed to a single `-`, with no leading or trailing
/// hyphen. Non-ASCII characters are dropped, so the result is pure ASCII;
/// text with no ASCII alphanumerics at all becomes the empty string.
pub fn to_kebab_case(s: &str) -> (r: String)
    ensures
        r@ == kebab_of(s@),
{
    let cs = chars_of(s);
    let ghost p = |c: char| ascii_alphanumeric(c);
    let ghost lw = |w: Seq<char>| w.map_values(|c: char| ascii_lower(c));
    let mut out: Vec<char> = Vec::new();
    let mut prev_dash = false;
    let mut i: usize = 0;
    while i < cs.len()
        invariant
            i <= cs.len(),
            cs@ == s@,
            p == (|c: char| ascii_alphanumeric(c)),
            lw == (|w: Seq<char>| w.map_values(|c: char| ascii_lower(c))),
            prev_dash ==> out@ == join(runs(cs@.take(i as int), p).map_values(lw), '-').push('-'),
            !prev_dash ==> out@ == join(runs(cs@.take(i as int), p).map_values(lw), '-'),
            prev_dash <==> (runs(cs@.take(i as int), p).len() > 0 && i > 0 && !p(cs@[i - 1])),
        decreases cs.len() - i,
    {
        let c = cs[i];
        let ghost t = cs@.take(i + 1);
        let ghost prev = runs(cs@.take(i as int), p);
        let ghost m = prev.map_values(lw);
        proof {
            assert(t.drop_last() =~= cs@.take(i as int));
            assert(t.last() == c);
            if i > 0 {
                assert(t[t.len() - 2] == cs@[i - 1]);
                assert(cs@.take(i as int).last() == cs@[i - 1]);
            }
            lemma_runs_shape(cs@.take(i as int), p);
            lemma_runs_shape(t, p);
            if m.len() > 0 {
                lemma_join_len(m, '-');
                assert(m.last().len() == prev.last().len());
            }
        }
        if exec_ascii_alphanumeric(c) {
            let lc = exec_ascii_lower(c);
            let ghost before = out@;
            out.push(lc);
            proof {
                if i > 0 && p(cs@[i - 1]) {
                    let nr = prev.update(prev.len() - 1, prev.last().push(c));
                    assert(runs(t, p) == nr);
                    assert(lw(prev.last().push(c)) =~= lw(prev.last()).push(lc));
                    assert(nr.map_values(lw) =~= m.update(m.len() - 1, m.last().push(lc)));
                    lemma_join_extend_last(m, lc, '-');
                } else {
                    assert(runs(t, p) == prev.push(seq![c]));
                    assert(lw(seq![c]) =~= seq![lc]);
                    assert(prev.push(seq![c]).map_values(lw) =~= m.push(seq![lc]));
                    lemma_join_push(m, seq![lc], '-');
                    if m.len() == 0 {
                        assert(before.len() == 0);
                        assert(out@ =~= seq![lc]);
                    } else {
                        assert(out@ =~= before + seq![lc]);
                    }
                }
            }
            prev_dash = false;
        } else {
            if !prev_dash && out.len() > 0 {
                out.push('-');
            }
            proof {
                assert(runs(t, p) == prev);
                if m.len() > 0 {
                    assert(out@.len() > 0);
                }
            }
            prev_dash = out.len() > 0;
        }
        i += 1;
    }
    if prev_dash {
        out.pop();
        proof {
            assert(out@ =~= join(runs(cs@.take(i as int), p).map_values(lw), '-'));
        }
    }
    proof {
        assert(cs@.take(cs.len() as int) =~= cs@);
    }
    string_of(&out)
}

/// Whether `s` is kebab-case (lowercase ASCII letters, digits and single
/// interior hyphens).
pub fn is_kebab_case(s: &str) -> (r: bool)
    ensures
        r == kebab_spec(s@),
{
    let cs = chars_of(s);
    let n = cs.len();
    if n == 0 || cs[0] == '-' || cs[n - 1] == '-' {
        return false;
    }
    let mut i: usize = 0;
    while i < n
        invariant
            0 < n == cs.len(),
            cs@ == s@,
            i <= n,
            forall|j: int| 0 <= j < i ==> kebab_char(#[trigger] cs@[j]),
            forall|j: int| 0 <= j < i && j < n - 1 ==> !(#[trigger] cs@[j] == '-' && cs@[j + 1] == '-'),
        decreases n - i,
    {
        let c = cs[i];
        if !(('a' <= c && c <= 'z') || ('0' <= c && c <= '9') || c == '-') {
            return false;
        }
        if i + 1 < n && c == '-' && cs[i + 1] == '-' {
            return false;
        }
        i += 1;
    }
    true
}


/// The words that [`kebab_of`] joins: non-empty, lowercase letters and digits.
pub open spec fn lower_words(ws: Seq<Seq<char>>) -> bool {
    forall|k: int| 0 <= k < ws.len() ==> #[trigger] ws[k].len() > 0 && forall|j: int|
        0 <= j < ws[k].len() ==> ('a' <= #[trigger] ws[k][j] <= 'z') || ('0' <= ws[k][j] <= '9')
}

proof fn lemma_join_lower_words(ws: Seq<Seq<char>>)
    requires
        lower_words(ws),
        ws.len() > 0,
    ensures
        kebab_spec(join(ws, '-')),
    decreases ws.len(),
{
    let j = join(ws, '-');
    let w = ws.last();
    assert(w.len() > 0);
    if ws.len() == 1 {
        assert(j == ws[0]);
        assert forall|i: int| 0 <= i < j.len() implies kebab_char(#[trigger] j[i]) by {
            assert(('a' <= ws[0][i] <= 'z') || ('0' <= ws[0][i] <= '9'));
        }
        assert(('a' <= ws[0][0] <= 'z') || ('0' <= ws[0][0] <= '9'));
        assert(('a' <= ws[0][j.len() - 1] <= 'z') || ('0' <= ws[0][j.len() - 1] <= '9'));
    } else {
        let d = ws.drop_last();
        assert forall|k: int| 0 <= k < d.len() implies #[trigger] d[k].len() > 0 && forall|i: int|
            0 <= i < d[k].len() ==> ('a' <= #[trigger] d[k][i] <= 'z') || ('0' <= d[k][i] <= '9') by {
            assert(d[k] == ws[k]);
        }
        lemma_join_lower_words(d);
        let a = join(d, '-');
        assert(j == a.push('-') + w);
        let n = a.len();
        assert(j.len() == n + 1 + w.len());
        assert forall|i: int| 0 <= i < j.len() implies kebab_char(#[trigger] j[i]) by {
            if i < n {
                assert(j[i] == a[i]);
            } else if i > n {
                assert(j[i] == w[i - n - 1]);
                assert(('a' <= w[i - n - 1] <= 'z') || ('0' <= w[i - n - 1] <= '9'));
            }
        }
        assert(j[0] == a[0]);
        assert(j.last() == w[w.len() - 1]);
        assert(('a' <= w[w.len() - 1] <= 'z') || ('0' <= w[w.len() - 1] <= '9'));
        assert(('a' <= w[0] <= 'z') || ('0' <= w[0] <= '9'));
        assert forall|i: int| 0 <= i < j.len() - 1 implies !(#[trigger] j[i] == '-' && j[i + 1] == '-') by {
            if i < n - 1 {
                assert(j[i] == a[i] && j[i + 1] == a[i + 1]);
            } else if i == n - 1 {
                assert(j[i] == a[n - 1]);
            } else if i == n {
                assert(j[i + 1] == w[0]);
            } else {
                assert(j[i] == w[i - n - 1]);
                assert(('a' <= w[i - n - 1] <= 'z') || ('0' <= w[i - n - 1] <= '9'));
            }
        }
    }
}

proof fn lemma_kebab_words(s: Seq<char>)
    ensures
        lower_words(
            runs(s, |c: char| ascii_alphanumeric(c)).map_values(
                |w: Seq<char>| w.map_values(|c: char| ascii_lower(c)),
            ),
        ),
{
    let p = |c: char| ascii_alphanumeric(c);
    let r = runs(s, p);
    let m = r.map_values(|w: Seq<char>| w.map_values(|c: char| ascii_lower(c)));
    lemma_runs_shape(s, p);
    assert forall|k: int| 0 <= k < m.len() implies #[trigger] m[k].len() > 0 && forall|j: int|
        0 <= j < m[k].len() ==> ('a' <= #[trigger] m[k][j] <= 'z') || ('0' <= m[k][j] <= '9') by {
        assert(r[k].len() > 0);
        assert forall|j: int| 0 <= j < m[k].len() implies ('a' <= #[trigger] m[k][j] <= 'z') || (
        '0' <= m[k][j] <= '9') by {
            assert(p(r[k][j]));
            assert(m[k][j] == ascii_lower(r[k][j]));
        }
    }
}

/// Kebab-casing always yields either the empty string or a valid
/// kebab-case name.
pub proof fn kebab_case_output_is_kebab(s: Seq<char>)
    ensures
        kebab_of(s).len() == 0 || kebab_spec(kebab_of(s)),
{
    lemma_kebab_words(s);
    let m = runs(s, |c: char| ascii_alphanumeric(c)).map_values(
        |w: Seq<char>| w.map_values(|c: char| ascii_lower(c)),
    );
    if m.len() > 0 {
        lemma_join_lower_words(m);
    }
}

proof fn lemma_kebab_prefix(s: Seq<char>)
    requires
        forall|i: int| 0 <= i < s.len() ==> kebab_char(#[trigger] s[i]),
        forall|i: int| 0 <= i < s.len() - 1 ==> !(#[trigger] s[i] == '-' && s[i + 1] == '-'),
        s.len() > 0 ==> s[0] != '-',
    ensures
        s.len() > 0 && s.last() == '-' ==> kebab_of(s) == s.drop_last(),
        s.len() == 0 || s.last() != '-' ==> kebab_of(s) == s,
    decreases s.len(),
{
    let p = |c: char| ascii_alphanumeric(c);
    let lw = |w: Seq<char>| w.map_values(|c: char| ascii_lower(c));
    if s.len() > 0 {
        let t = s.drop_last();
        assert forall|i: int| 0 <= i < t.len() implies kebab_char(#[trigger] t[i]) by {
            assert(t[i] == s[i]);
        }
        assert forall|i: int| 0 <= i < t.len() - 1 implies !(#[trigger] t[i] == '-' && t[i + 1]
            == '-') by {
            assert(t[i] == s[i] && t[i + 1] == s[i + 1]);
        }
        if t.len() > 0 {
            assert(t[0] == s[0]);
        }
        lemma_kebab_prefix(t);
        let prev = runs(t, p);
        let m = prev.map_values(lw);
        let c = s.last();
        assert(kebab_char(s[s.len() - 1]));
        if c == '-' {
            assert(runs(s, p) == prev);
            if t.len() > 0 {
                assert(t.last() == s[s.len() - 2]);
            }
        } else {
            assert(ascii_lower(c) == c);
            assert(p(c));
            if s.len() >= 2 && p(s[s.len() - 2]) {
                assert(t.last() == s[s.len() - 2]);
                lemma_runs_shape(t, p);
                assert(runs(s, p) == prev.update(prev.len() - 1, prev.last().push(c)));
                assert(lw(prev.last().push(c)) =~= lw(prev.last()).push(c));
                assert(runs(s, p).map_values(lw) =~= m.update(m.len() - 1, m.last().push(c)));
                lemma_join_extend_last(m, c, '-');
                assert(kebab_of(t) == t);
                assert(kebab_of(s) =~= s);
            } else {
                assert(runs(s, p) == prev.push(seq![c]));
                assert(lw(seq![c]) =~= seq![c]);
                assert(runs(s, p).map_values(lw) =~= m.push(seq![c]));
                lemma_join_push(m, seq![c], '-');
                if s.len() == 1 {
                    assert(prev.len() == 0);
                    assert(kebab_of(s) =~= s);
                } else {
                    assert(t.last() == s[s.len() - 2]);
                    assert(s[s.len() - 2] == '-');
                    assert(kebab_of(t) == t.drop_last());
                    assert(t.len() >= 2);
                    assert(t.drop_last().len() > 0);
                    assert(m.len() > 0);
                    assert(kebab_of(s) =~= s);
                }
            }
        }
    }
}

/// A name that is already kebab-case is left unchanged by kebab-casing.
pub proof fn kebab_case_fixes_kebab_names(s: Seq<char>)
    requires
        kebab_spec(s),
    ensures
        kebab_of(s) == s,
{
    lemma_kebab_prefix(s);
}

/// Kebab-casing is idempotent.
pub proof fn kebab_case_is_idempotent(s: Seq<char>)
    ensures
        kebab_of(kebab_of(s)) == kebab_of(s),
{
    kebab_case_output_is_kebab(s);
    if kebab_of(s).len() > 0 {
        kebab_case_fixes_kebab_names(kebab_of(s));
    } else {
        assert(runs(kebab_of(s), |c: char| ascii_alphanumeric(c)).len() == 0);
        assert(kebab_of(kebab_of(s)) =~= kebab_of(s));
    }
}

pub proof fn lemma_runs_empty(s: Seq<char>, p: spec_fn(char) -> bool)
    ensures
        runs(s, p).len() == 0 <==> forall|i: int| 0 <= i < s.len() ==> !p(#[trigger] s[i]),
    decreases s.len(),
{
    if s.len() > 0 {
        let t = s.drop_last();
        lemma_runs_empty(t, p);
        lemma_runs_shape(s, p);
        if forall|i: int| 0 <= i < s.len() ==> !p(#[trigger] s[i]) {
            assert forall|i: int| 0 <= i < t.len() implies !p(#[trigger] t[i]) by {
                assert(t[i] == s[i]);
            }
            assert(!p(s[s.len() - 1]));
        } else {
            let k = choose|k: int| 0 <= k < s.len() && p(#[trigger] s[k]);
            if k < s.len() - 1 {
                assert(t[k] == s[k]);
                assert(runs(t, p).len() > 0);
            }
        }
    }
}

/// Kebab-casing gives the empty string exactly when the text has no ASCII
/// letter or digit.
pub proof fn kebab_case_is_empty_only_without_alphanumerics(s: Seq<char>)
    ensures
        kebab_of(s).len() == 0 <==> forall|i: int| 0 <= i < s.len() ==> !ascii_alphanumeric(#[trigger] s[i]),
{
    let p = |c: char| ascii_alphanumeric(c);
    lemma_runs_empty(s, p);
    lemma_kebab_words(s);
    let m = runs(s, p).map_values(|w: Seq<char>| w.map_values(|c: char| ascii_lower(c)));
    if m.len() > 0 {
        lemma_join_len(m, '-');
        assert(m[m.len() - 1].len() > 0);
    }
    assert((forall|i: int| 0 <= i < s.len() ==> !ascii_alphanumeric(#[trigger] s[i])) == (forall|i: int|
        0 <= i < s.len() ==> !p(#[trigger] s[i])));
}

} // verus!
