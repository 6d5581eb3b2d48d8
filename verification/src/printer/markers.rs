//! Words that would start a block if they began a line: list bullets, ATX
//! heading hashes, block quotes, ordered list markers, thematic breaks,
//! setext underlines and tilde fences. Reflow must not start a wrapped line
//! with one, so such a word stays on the line before it, or is escaped when
//! a hard break leaves it no line to stay on.

use vstd::prelude::*;

verus! {

/// Every character of `s` is `c`.
pub open spec fn all_are(s: Seq<char>, c: char) -> bool {
    forall|i: int| 0 <= i < s.len() ==> s[i] == c
}

/// Every character of `s` is an ASCII digit.
pub open spec fn all_digits(s: Seq<char>) -> bool {
    forall|i: int| 0 <= i < s.len() ==> '0' <= #[trigger] s[i] <= '9'
}

/// An ordered list marker: one to nine digits, then `.` or `)`.
pub open spec fn ordered_marker(s: Seq<char>) -> bool {
    2 <= s.len() <= 10 && all_digits(s.drop_last()) && (s.last() == '.' || s.last() == ')')
}

/// A run of characters without spaces that, at the start of a line, would
/// open a block: `-`, `+` or `*` (a bullet); `#` to `######` (an ATX
/// heading); anything beginning with `>` (a block quote); an ordered list
/// marker; three or more `*` or `_` (a thematic break); a run of `-` or
/// `=` (a setext underline or thematic break); three or more `~` (a fence).
pub open spec fn marker_like(s: Seq<char>) -> bool {
    &&& s.len() > 0
    &&& !s.contains(' ')
    &&& {
        ||| all_are(s, '-')
        ||| all_are(s, '=')
        ||| s == seq!['+']
        ||| s == seq!['*']
        ||| all_are(s, '#') && s.len() <= 6
        ||| s[0] == '>'
        ||| all_are(s, '~') && s.len() >= 3
        ||| (all_are(s, '*') || all_are(s, '_')) && s.len() >= 3
        ||| ordered_marker(s)
    }
}

/// How many characters `w` has before its first space.
pub open spec fn lead_len(w: Seq<char>) -> nat
    decreases w.len(),
{
    if w.len() == 0 || w[0] == ' ' {
        0
    } else {
        1 + lead_len(w.drop_first())
    }
}

/// `line` begins with a marker-like word: the characters before its first
/// space are marker-like.
pub open spec fn marker_start(line: Seq<char>) -> bool {
    marker_like(line.take(lead_len(line) as int))
}

/// `w`, which begins with a marker-like word, escaped so that it does not:
/// an ordered marker gets a backslash before its `.` or `)`, anything else
/// a backslash in front.
pub open spec fn escape_line_start(w: Seq<char>) -> Seq<char> {
    let n = lead_len(w) as int;
    if ordered_marker(w.take(n)) {
        w.take(n - 1) + seq!['\\'] + w.skip(n - 1)
    } else {
        seq!['\\'] + w
    }
}

proof fn lemma_lead_len(w: Seq<char>)
    ensures
        lead_len(w) <= w.len(),
        forall|i: int| 0 <= i < lead_len(w) ==> w[i] != ' ',
        lead_len(w) == w.len() || w[lead_len(w) as int] == ' ',
    decreases w.len(),
{
    if w.len() > 0 && w[0] != ' ' {
        lemma_lead_len(w.drop_first());
        assert forall|i: int| 0 <= i < lead_len(w) implies w[i] != ' ' by {
            if i > 0 {
                assert(w[i] == w.drop_first()[i - 1]);
            }
        }
    }
}

/// The characters before the first space are found by their property.
proof fn lemma_lead_len_is(w: Seq<char>, m: int)
    requires
        0 <= m <= w.len(),
        forall|i: int| 0 <= i < m ==> w[i] != ' ',
        m == w.len() || w[m] == ' ',
    ensures
        lead_len(w) == m,
    decreases w.len(),
{
    if m > 0 {
        let t = w.drop_first();
        assert forall|i: int| 0 <= i < m - 1 implies t[i] != ' ' by {
            assert(t[i] == w[i + 1]);
        }
        if m < w.len() {
            assert(t[m - 1] == w[m]);
        }
        lemma_lead_len_is(t, m - 1);
    }
}

/// A line that goes on after a space or two begins with the same word.
pub proof fn lemma_marker_start_extend(cur: Seq<char>, more: Seq<char>)
    requires
        more.len() > 0,
        more[0] == ' ',
    ensures
        marker_start(cur + more) == marker_start(cur),
{
    lemma_lead_len(cur);
    let m = lead_len(cur) as int;
    let s = cur + more;
    assert forall|i: int| 0 <= i < m implies s[i] != ' ' by {
        assert(s[i] == cur[i]);
    }
    if m < cur.len() {
        assert(s[m] == cur[m]);
    } else {
        assert(s[m] == more[0]);
    }
    lemma_lead_len_is(s, m);
    assert(s.take(m) =~= cur.take(m));
}

/// An escaped word no longer begins with a marker-like word.
pub proof fn lemma_escaped_is_not_marker(w: Seq<char>)
    requires
        marker_start(w),
    ensures
        !marker_start(escape_line_start(w)),
{
    lemma_lead_len(w);
    let n = lead_len(w) as int;
    let e = escape_line_start(w);
    if ordered_marker(w.take(n)) {
        assert forall|i: int| 0 <= i < n + 1 implies e[i] != ' ' by {
            if i < n - 1 {
                assert(e[i] == w[i]);
            } else if i > n - 1 {
                assert(e[i] == w[i - 1]);
            }
        }
        if n < w.len() {
            assert(e[n + 1] == w[n]);
        }
        lemma_lead_len_is(e, n + 1);
        let c = e.take(n + 1);
        assert(c[n - 1] == '\\');
        assert(c[0] == w[0]);
        assert(w.take(n).drop_last()[0] == w[0]);
        assert(!all_digits(c.drop_last())) by {
            assert(c.drop_last()[n - 1] == '\\');
        }
        assert(c.last() == w[n - 1]);
    } else {
        assert forall|i: int| 0 <= i < n + 1 implies e[i] != ' ' by {
            if i > 0 {
                assert(e[i] == w[i - 1]);
            }
        }
        if n < w.len() {
            assert(e[n + 1] == w[n]);
        }
        lemma_lead_len_is(e, n + 1);
        let c = e.take(n + 1);
        assert(c[0] == '\\');
        if c.len() >= 2 {
            assert(c.drop_last()[0] == '\\');
        }
        assert(c != seq!['+']) by {
            assert(c[0] != seq!['+'][0]);
        }
        assert(c != seq!['*']) by {
            assert(c[0] != seq!['*'][0]);
        }
    }
}

/// How many characters `w` has before its first space.
pub fn lead_length(w: &Vec<char>) -> (r: usize)
    ensures
        r == lead_len(w@),
{
    let mut i: usize = 0;
    while i < w.len() && w[i] != ' '
        invariant
            i <= w.len(),
            forall|j: int| 0 <= j < i ==> w@[j] != ' ',
        decreases w.len() - i,
    {
        i += 1;
    }
    proof {
        lemma_lead_len_is(w@, i as int);
    }
    i
}

/// Whether the first `n` characters of `w` are all `c`.
fn prefix_all(w: &Vec<char>, n: usize, c: char) -> (r: bool)
    requires
        n <= w.len(),
    ensures
        r == all_are(w@.take(n as int), c),
{
    let mut i: usize = 0;
    while i < n
        invariant
            i <= n <= w.len(),
            forall|j: int| 0 <= j < i ==> w@[j] == c,
        decreases n - i,
    {
        if w[i] != c {
            proof {
                assert(w@.take(n as int)[i as int] != c);
            }
            return false;
        }
        i += 1;
    }
    proof {
        assert forall|j: int| 0 <= j < n implies w@.take(n as int)[j] == c by {
            assert(w@.take(n as int)[j] == w@[j]);
        }
    }
    true
}

/// Whether the first `n` characters of `w` are all ASCII digits.
fn prefix_digits(w: &Vec<char>, n: usize) -> (r: bool)
    requires
        n <= w.len(),
    ensures
        r == all_digits(w@.take(n as int)),
{
    let mut i: usize = 0;
    while i < n
        invariant
            i <= n <= w.len(),
            forall|j: int| 0 <= j < i ==> '0' <= #[trigger] w@[j] <= '9',
        decreases n - i,
    {
        if !('0' <= w[i] && w[i] <= '9') {
            proof {
                assert(w@.take(n as int)[i as int] == w@[i as int]);
            }
            return false;
        }
        i += 1;
    }
    proof {
        assert forall|j: int| 0 <= j < n implies '0' <= #[trigger] w@.take(n as int)[j] <= '9' by {
            assert(w@.take(n as int)[j] == w@[j]);
        }
    }
    true
}

/// Whether the first `n` characters of `w` (`n` at least 1) form an
/// ordered list marker.
fn prefix_ordered(w: &Vec<char>, n: usize) -> (r: bool)
    requires
        n <= w.len(),
    ensures
        r == ordered_marker(w@.take(n as int)),
{
    if n < 2 || n > 10 {
        return false;
    }
    let last = w[n - 1];
    let digits = prefix_digits(w, n - 1);
    proof {
        assert(w@.take(n as int).drop_last() =~= w@.take(n - 1));
    }
    digits && (last == '.' || last == ')')
}

/// Whether `w` begins with a marker-like word.
pub fn starts_with_marker(w: &Vec<char>) -> (r: bool)
    ensures
        r == marker_start(w@),
{
    let n = lead_length(w);
    proof {
        lemma_lead_len(w@);
    }
    let ghost s = w@.take(n as int);
    if n == 0 {
        return false;
    }
    proof {
        assert(!s.contains(' ')) by {
            if s.contains(' ') {
                let k = choose|k: int| 0 <= k < s.len() && s[k] == ' ';
                assert(w@[k] == ' ');
            }
        }
    }
    let first = w[0];
    proof {
        assert(s[0] == first);
    }
    let single_plus = n == 1 && first == '+';
    let single_star = n == 1 && first == '*';
    proof {
        if n == 1 {
            if first == '+' {
                assert(s =~= seq!['+']);
            } else {
                assert(s[0] != seq!['+'][0]);
            }
            if first == '*' {
                assert(s =~= seq!['*']);
            } else {
                assert(s[0] != seq!['*'][0]);
            }
        } else {
            assert(s.len() != seq!['+'].len());
            assert(s.len() != seq!['*'].len());
        }
    }
    prefix_all(w, n, '-') || prefix_all(w, n, '=') || single_plus || single_star || (prefix_all(
        w,
        n,
        '#',
    ) && n <= 6) || first == '>' || (prefix_all(w, n, '~') && n >= 3) || ((prefix_all(w, n, '*')
        || prefix_all(w, n, '_')) && n >= 3) || prefix_ordered(w, n)
}

/// `w`, which begins with a marker-like word, escaped as
/// [`escape_line_start`] says.
pub fn escape_marker(w: &Vec<char>) -> (r: Vec<char>)
    ensures
        r@ == escape_line_start(w@),
{
    let n = lead_length(w);
    proof {
        lemma_lead_len(w@);
    }
    let mut out: Vec<char> = Vec::new();
    if prefix_ordered(w, n) {
        let mut i: usize = 0;
        while i < w.len()
            invariant
                2 <= n <= w.len(),
                i <= w.len(),
                i < n ==> out@ == w@.take(i as int),
                i >= n ==> out@ == w@.take(n - 1) + seq!['\\'] + w@.skip(n - 1).take(i - n + 1),
            decreases w.len() - i,
        {
            if i + 1 == n {
                out.push('\\');
            }
            out.push(w[i]);
            proof {
                if i + 1 < n {
                    assert(out@ =~= w@.take(i + 1));
                } else {
                    assert(out@ =~= w@.take(n - 1) + seq!['\\'] + w@.skip(n - 1).take(i + 1 - n + 1));
                }
            }
            i += 1;
        }
        proof {
            assert(w@.skip(n - 1).take(w.len() - n + 1) =~= w@.skip(n - 1));
        }
    } else {
        out.push('\\');
        let mut i: usize = 0;
        while i < w.len()
            invariant
                i <= w.len(),
                out@ == seq!['\\'] + w@.take(i as int),
            decreases w.len() - i,
        {
            out.push(w[i]);
            proof {
                assert(out@ =~= seq!['\\'] + w@.take(i + 1));
            }
            i += 1;
        }
        proof {
            assert(w@.take(w.len() as int) =~= w@);
        }
    }
    out
}

} // verus!
