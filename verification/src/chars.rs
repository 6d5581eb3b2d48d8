//! Character classification and string building blocks shared by the rules.
//!
//! Unicode-aware classification (`char::is_alphanumeric`,
//! `char::is_whitespace`, `str::to_lowercase`) comes from `std`; everything
//! built on top of it (trimming, splitting, substring search, decimal
//! rendering) is written and verified here.

use vstd::prelude::*;

verus! {

/// Whether `c` is alphanumeric in the Unicode sense (`char::is_alphanumeric`).
pub uninterp spec fn unicode_alphanumeric(c: char) -> bool;

/// Whether `c` carries the Unicode `White_Space` property (`char::is_whitespace`).
pub uninterp spec fn unicode_whitespace(c: char) -> bool;

/// The Unicode lowercase mapping of a whole string (`str::to_lowercase`).
pub uninterp spec fn unicode_lowercase(s: Seq<char>) -> Seq<char>;

/// ASCII letters and digits.
pub open spec fn ascii_alphanumeric(c: char) -> bool {
    ('a' <= c <= 'z') || ('A' <= c <= 'Z') || ('0' <= c <= '9')
}

/// ASCII lowercase of `c` (`char::to_ascii_lowercase`).
pub open spec fn ascii_lower(c: char) -> char {
    if 'A' <= c <= 'Z' {
        ((c as u32) + 32) as char
    } else {
        c
    }
}

/// The six ASCII characters with the `White_Space` property.
pub open spec fn ascii_whitespace(c: char) -> bool {
    c == ' ' || c == '\t' || c == '\n' || c == '\x0B' || c == '\x0C' || c == '\r'
}

/// Calls `char::is_alphanumeric`. Its documentation defines it as the
/// Alphabetic or Numeric property; on ASCII that is exactly the letters and
/// digits, which is all this contract claims beyond naming the result.
#[verifier::external_body]
pub(crate) fn is_alphanumeric(c: char) -> (r: bool)
    ensures
        r == unicode_alphanumeric(c),
        (c as u32) < 128 ==> (r <==> ascii_alphanumeric(c)),
{
    c.is_alphanumeric()
}

/// Calls `char::is_whitespace`. Its documentation defines it as the
/// `White_Space` property; on ASCII that property holds for exactly the six
/// characters of [`ascii_whitespace`], which is all this contract claims
/// beyond naming the result.
#[verifier::external_body]
pub(crate) fn is_whitespace(c: char) -> (r: bool)
    ensures
        r == unicode_whitespace(c),
        (c as u32) < 128 ==> (r <==> ascii_whitespace(c)),
{
    c.is_whitespace()
}

/// Calls `str::to_lowercase`; the result is named. Beyond that only the
/// ASCII case is stated: the Unicode lowercase mapping takes `A`-`Z` to
/// `a`-`z` and leaves every other ASCII character as it is (the mapping
/// beyond ASCII, with its context-sensitive final-sigma rule, is not
/// restated here).
#[verifier::external_body]
pub(crate) fn to_lowercase(s: &str) -> (r: String)
    ensures
        r@ == unicode_lowercase(s@),
        (forall|i: int| 0 <= i < s@.len() ==> (#[trigger] s@[i] as u32) < 128) ==> r@ == s@.map_values(
            |c: char| ascii_lower(c),
        ),
{
    s.to_lowercase()
}

/// Calls `String::push`: appends one character.
#[verifier::external_body]
pub(crate) fn push_char(s: &mut String, c: char)
    ensures
        final(s)@ == old(s)@.push(c),
{
    s.push(c)
}

/// The characters of `s`, in order.
pub fn chars_of(s: &str) -> (r: Vec<char>)
    ensures
        r@ == s@,
{
    let mut out: Vec<char> = Vec::new();
    for c in it: s.chars()
        invariant
            out@ == it.seq().take(it.index() as int),
            it.seq() == s@,
    {
        out.push(c);
    }
    out
}


/// Number of leading characters of `s` that satisfy `ws`.
pub open spec fn leading_count(s: Seq<char>, ws: spec_fn(char) -> bool) -> nat
    decreases s.len(),
{
    if s.len() > 0 && ws(s[0]) {
        1 + leading_count(s.drop_first(), ws)
    } else {
        0
    }
}

/// Number of trailing characters of `s` that satisfy `ws`.
pub open spec fn trailing_count(s: Seq<char>, ws: spec_fn(char) -> bool) -> nat
    decreases s.len(),
{
    if s.len() > 0 && ws(s.last()) {
        1 + trailing_count(s.drop_last(), ws)
    } else {
        0
    }
}

/// `s` with leading Unicode whitespace removed (`str::trim_start`).
pub open spec fn trim_start(s: Seq<char>) -> Seq<char> {
    s.subrange(leading_count(s, |c: char| unicode_whitespace(c)) as int, s.len() as int)
}

/// `s` with trailing Unicode whitespace removed (`str::trim_end`).
pub open spec fn trim_end(s: Seq<char>) -> Seq<char> {
    s.subrange(0, s.len() - trailing_count(s, |c: char| unicode_whitespace(c)))
}

/// `s` with leading and trailing Unicode whitespace removed (`str::trim`).
pub open spec fn trim(s: Seq<char>) -> Seq<char> {
    trim_end(trim_start(s))
}

/// Every character of `s` is whitespace, i.e. `s.trim().is_empty()`.
pub open spec fn is_blank(s: Seq<char>) -> bool {
    forall|i: int| 0 <= i < s.len() ==> #[trigger] unicode_whitespace(s[i])
}

pub proof fn lemma_leading_count_bound(s: Seq<char>, ws: spec_fn(char) -> bool)
    ensures
        leading_count(s, ws) <= s.len(),
        forall|j: int| 0 <= j < leading_count(s, ws) ==> #[trigger] ws(s[j]),
        leading_count(s, ws) < s.len() ==> !ws(s[leading_count(s, ws) as int]),
    decreases s.len(),
{
    if s.len() > 0 && ws(s[0]) {
        lemma_leading_count_bound(s.drop_first(), ws);
        assert forall|j: int| 0 <= j < leading_count(s, ws) implies #[trigger] ws(s[j]) by {
            if j > 0 {
                assert(s[j] == s.drop_first()[j - 1]);
            }
        }
    }
}

pub proof fn lemma_trailing_count_bound(s: Seq<char>, ws: spec_fn(char) -> bool)
    ensures
        trailing_count(s, ws) <= s.len(),
        forall|j: int|
            s.len() - trailing_count(s, ws) <= j < s.len() ==> #[trigger] ws(s[j]),
        trailing_count(s, ws) < s.len() ==> !ws(s[s.len() - trailing_count(s, ws) - 1]),
    decreases s.len(),
{
    if s.len() > 0 && ws(s.last()) {
        lemma_trailing_count_bound(s.drop_last(), ws);
        assert forall|j: int|
            s.len() - trailing_count(s, ws) <= j < s.len() implies #[trigger] ws(s[j]) by {
            if j < s.len() - 1 {
                assert(s[j] == s.drop_last()[j]);
            }
        }
    }
}

/// A leading count is determined by where the first non-matching character is.
pub proof fn lemma_leading_count_is(s: Seq<char>, ws: spec_fn(char) -> bool, k: int)
    requires
        0 <= k <= s.len(),
        forall|j: int| 0 <= j < k ==> #[trigger] ws(s[j]),
        k < s.len() ==> !ws(s[k]),
    ensures
        leading_count(s, ws) == k,
    decreases s.len(),
{
    if k > 0 {
        assert forall|j: int| 0 <= j < k - 1 implies #[trigger] ws(s.drop_first()[j]) by {
            assert(s.drop_first()[j] == s[j + 1]);
        }
        if k - 1 < s.drop_first().len() {
            assert(s.drop_first()[k - 1] == s[k]);
        }
        lemma_leading_count_is(s.drop_first(), ws, k - 1);
        assert(ws(s[0]));
    }
}

/// A trailing count is determined by where the last non-matching character is.
pub proof fn lemma_trailing_count_is(s: Seq<char>, ws: spec_fn(char) -> bool, k: int)
    requires
        0 <= k <= s.len(),
        forall|j: int| s.len() - k <= j < s.len() ==> #[trigger] ws(s[j]),
        k < s.len() ==> !ws(s[s.len() - k - 1]),
    ensures
        trailing_count(s, ws) == k,
    decreases s.len(),
{
    if k > 0 {
        let t = s.drop_last();
        assert forall|j: int| t.len() - (k - 1) <= j < t.len() implies #[trigger] ws(t[j]) by {
            assert(t[j] == s[j]);
        }
        if k - 1 < t.len() {
            assert(t[t.len() - (k - 1) - 1] == s[s.len() - k - 1]);
        }
        lemma_trailing_count_is(t, ws, k - 1);
        assert(ws(s[s.len() - 1]));
    }
}

/// The characters of `s` with surrounding whitespace removed (`str::trim`).
pub fn trim_chars(s: &Vec<char>) -> (r: Vec<char>)
    ensures
        r@ == trim(s@),
{
    let n = s.len();
    let mut i: usize = 0;
    while i < n && is_whitespace(s[i])
        invariant
            i <= n == s.len(),
            forall|j: int| 0 <= j < i ==> #[trigger] unicode_whitespace(s@[j]),
        decreases n - i,
    {
        i += 1;
    }
    let mut k: usize = n;
    while k > i && is_whitespace(s[k - 1])
        invariant
            i <= k <= n == s.len(),
            forall|j: int| k <= j < n ==> #[trigger] unicode_whitespace(s@[j]),
        decreases k - i,
    {
        k -= 1;
    }
    proof {
        let ws = |c: char| unicode_whitespace(c);
        lemma_leading_count_is(s@, ws, i as int);
        let t = trim_start(s@);
        assert(t == s@.subrange(i as int, n as int));
        assert forall|j: int| t.len() - (n - k) <= j < t.len() implies #[trigger] ws(t[j]) by {
            assert(t[j] == s@[j + i]);
        }
        if n - k < t.len() {
            assert(t[t.len() - (n - k) - 1] == s@[k as int - 1]);
        }
        lemma_trailing_count_is(t, ws, (n - k) as int);
    }
    let mut out: Vec<char> = Vec::new();
    let mut j = i;
    while j < k
        invariant
            i <= j <= k <= n == s.len(),
            out@ == s@.subrange(i as int, j as int),
        decreases k - j,
    {
        out.push(s[j]);
        j += 1;
    }
    proof {
        assert(out@ =~= trim(s@));
    }
    out
}

/// Whether every character of `s` is whitespace (`s.trim().is_empty()`).
pub fn blank(s: &Vec<char>) -> (r: bool)
    ensures
        r == is_blank(s@),
{
    let mut i: usize = 0;
    while i < s.len()
        invariant
            i <= s.len(),
            forall|j: int| 0 <= j < i ==> #[trigger] unicode_whitespace(s@[j]),
        decreases s.len() - i,
    {
        if !is_whitespace(s[i]) {
            return false;
        }
        i += 1;
    }
    true
}

/// `s` with leading and trailing characters that satisfy `p` removed
/// (`str::trim_matches`).
pub open spec fn strip(s: Seq<char>, p: spec_fn(char) -> bool) -> Seq<char> {
    let t = s.subrange(leading_count(s, p) as int, s.len() as int);
    t.subrange(0, t.len() - trailing_count(t, p))
}

pub open spec fn not_alphanumeric() -> spec_fn(char) -> bool {
    |c: char| !unicode_alphanumeric(c)
}

/// `s` with leading and trailing non-alphanumeric characters removed.
pub fn strip_non_alphanumeric(s: &Vec<char>) -> (r: Vec<char>)
    ensures
        r@ == strip(s@, not_alphanumeric()),
{
    let ghost p = not_alphanumeric();
    let n = s.len();
    let mut i: usize = 0;
    while i < n && !is_alphanumeric(s[i])
        invariant
            i <= n == s.len(),
            p == not_alphanumeric(),
            forall|j: int| 0 <= j < i ==> #[trigger] p(s@[j]),
        decreases n - i,
    {
        i += 1;
    }
    let mut k: usize = n;
    while k > i && !is_alphanumeric(s[k - 1])
        invariant
            i <= k <= n == s.len(),
            p == not_alphanumeric(),
            forall|j: int| k <= j < n ==> #[trigger] p(s@[j]),
        decreases k - i,
    {
        k -= 1;
    }
    proof {
        lemma_leading_count_is(s@, p, i as int);
        let t = s@.subrange(i as int, n as int);
        assert forall|j: int| t.len() - (n - k) <= j < t.len() implies #[trigger] p(t[j]) by {
            assert(t[j] == s@[j + i]);
        }
        if n - k < t.len() {
            assert(t[t.len() - (n - k) - 1] == s@[k as int - 1]);
        }
        lemma_trailing_count_is(t, p, (n - k) as int);
    }
    let mut out: Vec<char> = Vec::new();
    let mut j = i;
    while j < k
        invariant
            i <= j <= k <= n == s.len(),
            out@ == s@.subrange(i as int, j as int),
        decreases k - j,
    {
        out.push(s[j]);
        j += 1;
    }
    proof {
        assert(out@ =~= strip(s@, p));
    }
    out
}

/// Some phrase of `phrases` is a substring of `hay`.
pub open spec fn has_phrase(hay: Seq<char>, phrases: Seq<Seq<char>>) -> bool {
    exists|i: int| 0 <= i < phrases.len() && contains_seq(hay, #[trigger] phrases[i])
}

pub open spec fn str_views(v: Seq<&str>) -> Seq<Seq<char>> {
    v.map_values(|s: &str| s@)
}

/// Whether some phrase of `phrases` occurs in `hay`.
pub fn contains_any(hay: &Vec<char>, phrases: &Vec<&str>) -> (r: bool)
    ensures
        r == has_phrase(hay@, str_views(phrases@)),
{
    let ghost ps = str_views(phrases@);
    let mut i: usize = 0;
    while i < phrases.len()
        invariant
            i <= phrases.len(),
            ps == str_views(phrases@),
            forall|j: int| 0 <= j < i ==> !contains_seq(hay@, #[trigger] ps[j]),
        decreases phrases.len() - i,
    {
        let needle = chars_of(phrases[i]);
        if contains_chars(hay, &needle) {
            proof {
                assert(ps[i as int] == needle@);
            }
            return true;
        }
        i += 1;
    }
    false
}

/// Whether `needle` occurs in `hay` starting at index `i`.
pub open spec fn occurs_at(hay: Seq<char>, needle: Seq<char>, i: int) -> bool {
    0 <= i && i + needle.len() <= hay.len() && hay.subrange(i, i + needle.len()) == needle
}

/// Whether `needle` is a substring of `hay` (`str::contains`).
pub open spec fn contains_seq(hay: Seq<char>, needle: Seq<char>) -> bool {
    exists|i: int| #[trigger] occurs_at(hay, needle, i)
}

/// Whether `hay` begins with `prefix` (`str::starts_with`).
pub open spec fn starts_with(hay: Seq<char>, prefix: Seq<char>) -> bool {
    occurs_at(hay, prefix, 0)
}

/// Whether `hay` ends with `suffix` (`str::ends_with`).
pub open spec fn ends_with(hay: Seq<char>, suffix: Seq<char>) -> bool {
    suffix.len() <= hay.len() && occurs_at(hay, suffix, hay.len() - suffix.len())
}

/// Whether `needle` occurs at index `i` of `hay`.
pub fn matches_at(hay: &Vec<char>, needle: &Vec<char>, i: usize) -> (r: bool)
    ensures
        r == occurs_at(hay@, needle@, i as int),
{
    if needle.len() > hay.len() || i > hay.len() - needle.len() {
        return false;
    }
    let mut k: usize = 0;
    while k < needle.len()
        invariant
            k <= needle.len(),
            i + needle.len() <= hay.len(),
            forall|j: int| 0 <= j < k ==> hay@[i + j] == #[trigger] needle@[j],
        decreases needle.len() - k,
    {
        if hay[i + k] != needle[k] {
            proof {
                assert(hay@.subrange(i as int, i + needle.len())[k as int] != needle@[k as int]);
            }
            return false;
        }
        k += 1;
    }
    proof {
        assert(hay@.subrange(i as int, i + needle.len()) =~= needle@);
    }
    true
}

/// Whether `needle` is a substring of `hay`.
pub fn contains_chars(hay: &Vec<char>, needle: &Vec<char>) -> (r: bool)
    ensures
        r == contains_seq(hay@, needle@),
{
    if needle.len() > hay.len() {
        return false;
    }
    let last = hay.len() - needle.len();
    let mut i: usize = 0;
    while i <= last
        invariant
            last + needle.len() == hay.len(),
            forall|j: int| 0 <= j < i ==> !#[trigger] occurs_at(hay@, needle@, j),
        decreases last + 1 - i,
    {
        if matches_at(hay, needle, i) {
            return true;
        }
        if i == last {
            proof {
                assert forall|j: int| !#[trigger] occurs_at(hay@, needle@, j) by {
                    if 0 <= j && j + needle.len() <= hay.len() {
                        assert(j <= i);
                    }
                }
            }
            return false;
        }
        i += 1;
    }
    false
}

/// Whether `hay` begins with `prefix`.
pub fn starts_with_chars(hay: &Vec<char>, prefix: &Vec<char>) -> (r: bool)
    ensures
        r == starts_with(hay@, prefix@),
{
    matches_at(hay, prefix, 0)
}

/// Whether `hay` ends with `suffix`.
pub fn ends_with_chars(hay: &Vec<char>, suffix: &Vec<char>) -> (r: bool)
    ensures
        r == ends_with(hay@, suffix@),
{
    if suffix.len() > hay.len() {
        return false;
    }
    matches_at(hay, suffix, hay.len() - suffix.len())
}

/// A `String` holding exactly `v`.
pub fn string_of(v: &Vec<char>) -> (r: String)
    ensures
        r@ == v@,
{
    let mut out = String::new();
    let mut i: usize = 0;
    while i < v.len()
        invariant
            i <= v.len(),
            out@ == v@.take(i as int),
        decreases v.len() - i,
    {
        push_char(&mut out, v[i]);
        proof {
            assert(v@.take(i + 1) =~= v@.take(i as int).push(v@[i as int]));
        }
        i += 1;
    }
    proof {
        assert(v@.take(v.len() as int) =~= v@);
    }
    out
}

/// Appends every character of `v` to `out`.
pub fn push_all(out: &mut String, v: &Vec<char>)
    ensures
        final(out)@ == old(out)@ + v@,
{
    let mut i: usize = 0;
    while i < v.len()
        invariant
            i <= v.len(),
            out@ == old(out)@ + v@.take(i as int),
        decreases v.len() - i,
    {
        push_char(out, v[i]);
        proof {
            assert(v@.take(i + 1) =~= v@.take(i as int).push(v@[i as int]));
        }
        i += 1;
    }
    proof {
        assert(v@.take(v.len() as int) =~= v@);
    }
}

/// Appends every character of `s` to `out`.
pub fn push_str(out: &mut String, s: &str)
    ensures
        final(out)@ == old(out)@ + s@,
{
    let v = chars_of(s);
    push_all(out, &v);
}

/// The decimal digits of `n`, most significant first, with no leading zeros
/// (`0` renders as `"0"`).
pub open spec fn decimal(n: nat) -> Seq<char>
    decreases n,
{
    if n < 10 {
        seq![digit_char(n)]
    } else {
        decimal(n / 10).push(digit_char(n % 10))
    }
}

pub open spec fn digit_char(d: nat) -> char {
    if d == 0 { '0' } else if d == 1 { '1' } else if d == 2 { '2' } else if d == 3 { '3' }
    else if d == 4 { '4' } else if d == 5 { '5' } else if d == 6 { '6' } else if d == 7 { '7' }
    else if d == 8 { '8' } else { '9' }
}

fn exec_digit(d: usize) -> (c: char)
    requires
        d < 10,
    ensures
        c == digit_char(d as nat),
{
    if d == 0 { '0' } else if d == 1 { '1' } else if d == 2 { '2' } else if d == 3 { '3' }
    else if d == 4 { '4' } else if d == 5 { '5' } else if d == 6 { '6' } else if d == 7 { '7' }
    else if d == 8 { '8' } else { '9' }
}

fn exec_digit_wide(d: u128) -> (c: char)
    requires
        d < 10,
    ensures
        c == digit_char(d as nat),
{
    if d == 0 { '0' } else if d == 1 { '1' } else if d == 2 { '2' } else if d == 3 { '3' }
    else if d == 4 { '4' } else if d == 5 { '5' } else if d == 6 { '6' } else if d == 7 { '7' }
    else if d == 8 { '8' } else { '9' }
}

/// Appends the decimal rendering of `n`.
pub fn push_decimal_wide(out: &mut String, n: u128)
    ensures
        final(out)@ == old(out)@ + decimal(n as nat),
    decreases n,
{
    if n < 10 {
        push_char(out, exec_digit_wide(n));
        proof {
            assert(old(out)@.push(digit_char(n as nat)) =~= old(out)@ + decimal(n as nat));
        }
    } else {
        push_decimal_wide(out, n / 10);
        push_char(out, exec_digit_wide(n % 10));
        proof {
            assert(decimal(n as nat) == decimal((n / 10) as nat).push(digit_char((n % 10) as nat)));
            assert((old(out)@ + decimal((n / 10) as nat)).push(digit_char((n % 10) as nat))
                =~= old(out)@ + decimal(n as nat));
        }
    }
}

/// Appends the decimal rendering of `n` (as `format!("{n}")` does).
pub fn push_decimal(out: &mut String, n: usize)
    ensures
        final(out)@ == old(out)@ + decimal(n as nat),
    decreases n,
{
    if n < 10 {
        push_char(out, exec_digit(n));
        proof {
            assert(old(out)@.push(digit_char(n as nat)) =~= old(out)@ + decimal(n as nat));
        }
    } else {
        push_decimal(out, n / 10);
        push_char(out, exec_digit(n % 10));
        proof {
            assert(decimal(n as nat) == decimal((n / 10) as nat).push(digit_char((n % 10) as nat)));
            assert((old(out)@ + decimal((n / 10) as nat)).push(digit_char((n % 10) as nat))
                =~= old(out)@ + decimal(n as nat));
        }
    }
}

} // verus!
