//! Finding the file references in a line of Markdown, for `SL104`.

use vstd::prelude::*;
use crate::chars::{
    chars_of, contains_chars, contains_seq, ends_with, ends_with_chars, occurs_at, starts_with,
    starts_with_chars, string_of, to_lowercase, trim, trim_chars, unicode_lowercase,
};
use crate::text::char_views;

verus! {

/// The index of the first `c` in `l` at or after `from`, if any.
pub open spec fn find_from(l: Seq<char>, c: char, from: int) -> Option<int>
    decreases l.len() - from,
{
    if from < 0 || from >= l.len() {
        None
    } else if l[from] == c {
        Some(from)
    } else {
        find_from(l, c, from + 1)
    }
}

pub proof fn lemma_find_from(l: Seq<char>, c: char, from: int)
    ensures
        match find_from(l, c, from) {
            Some(k) => from <= k < l.len() && l[k] == c && forall|j: int| from <= j < k ==> l[j] != c,
            None => forall|j: int| 0 <= from <= j < l.len() ==> l[j] != c,
        },
    decreases l.len() - from,
{
    if 0 <= from < l.len() && l[from] != c {
        lemma_find_from(l, c, from + 1);
    }
}

/// `t` up to the first ` "` (a link title), as `t.split(" \"").next()`.
pub open spec fn before_title(t: Seq<char>) -> Seq<char> {
    if exists|i: int| occurs_at(t, seq![' ', '"'], i) {
        t.take(choose|i: int| occurs_at(t, seq![' ', '"'], i) && forall|j: int| 0 <= j < i ==> !occurs_at(t, seq![' ', '"'], j))
    } else {
        t
    }
}

/// The destinations of the `](...)` link parts of `l` from index `i` on.
pub open spec fn link_parts(l: Seq<char>, i: int) -> Seq<Seq<char>>
    decreases l.len() - i,
{
    if i < 0 || i >= l.len() {
        Seq::empty()
    } else if l[i] == ']' && i + 1 < l.len() && l[i + 1] == '(' && find_from(l, ')', i + 2).is_some() {
        let c = find_from(l, ')', i + 2).unwrap();
        if i < c < l.len() {
            seq![before_title(l.subrange(i + 2, c))] + link_parts(l, c)
        } else {
            Seq::empty()
        }
    } else {
        link_parts(l, i + 1)
    }
}

/// The pieces of `s` between occurrences of `c` (`s.split(c)`).
pub open spec fn split_on(s: Seq<char>, c: char) -> Seq<Seq<char>>
    decreases s.len(),
{
    if s.len() == 0 {
        seq![Seq::empty()]
    } else {
        let p = split_on(s.drop_last(), c);
        if s.last() == c {
            p.push(Seq::empty())
        } else {
            p.update(p.len() - 1, p.last().push(s.last()))
        }
    }
}

/// The file extensions that make a backtick-quoted path worth checking.
pub open spec fn known_extensions() -> Seq<Seq<char>> {
    seq![
        ".md"@, ".markdown"@, ".txt"@, ".py"@, ".js"@, ".ts"@, ".jsx"@, ".tsx"@, ".json"@, ".yaml"@,
        ".yml"@, ".toml"@, ".sh"@, ".bash"@, ".rs"@, ".go"@, ".rb"@, ".java"@, ".c"@, ".cpp"@, ".h"@,
        ".hpp"@, ".css"@, ".html"@, ".htm"@, ".csv"@, ".xml"@, ".sql"@, ".pdf"@, ".png"@, ".jpg"@,
        ".jpeg"@, ".gif"@, ".svg"@, ".ipynb"@, ".cfg"@, ".ini"@, ".env"@,
    ]
}

fn known_extension_list() -> (r: Vec<&'static str>)
    ensures
        crate::chars::str_views(r@) == known_extensions(),
{
    let r = vec![
        ".md", ".markdown", ".txt", ".py", ".js", ".ts", ".jsx", ".tsx", ".json", ".yaml", ".yml",
        ".toml", ".sh", ".bash", ".rs", ".go", ".rb", ".java", ".c", ".cpp", ".h", ".hpp", ".css",
        ".html", ".htm", ".csv", ".xml", ".sql", ".pdf", ".png", ".jpg", ".jpeg", ".gif", ".svg",
        ".ipynb", ".cfg", ".ini", ".env",
    ];
    proof {
        assert(crate::chars::str_views(r@) =~= known_extensions());
    }
    r
}

/// A backtick-quoted span that looks like it was meant as a relative file
/// path: `./` or `../` in front, or a `/` inside and a known extension at
/// the end (ignoring case). Never with a space.
pub open spec fn looks_like_path(s: Seq<char>) -> bool {
    &&& s.len() > 0
    &&& !s.contains(' ')
    &&& (starts_with(s, "./"@) || starts_with(s, "../"@) || (s.contains('/') && exists|k: int|
        0 <= k < known_extensions().len() && ends_with(
            unicode_lowercase(s),
            #[trigger] known_extensions()[k],
        )))
}

/// The trimmed contents of the odd-numbered pieces among the first `k`
/// pieces of `ps` that look like paths.
pub open spec fn quoted_paths(ps: Seq<Seq<char>>, k: nat) -> Seq<Seq<char>>
    decreases k,
{
    if k == 0 {
        Seq::empty()
    } else {
        let i = k - 1;
        quoted_paths(ps, (k - 1) as nat) + if i % 2 == 1 && looks_like_path(trim(ps[i])) {
            seq![trim(ps[i])]
        } else {
            Seq::empty()
        }
    }
}

/// The candidate file references of line `l`: link and image destinations
/// (`[text](target)`, title dropped), then backtick-quoted spans that look
/// like paths.
pub open spec fn link_targets(l: Seq<char>) -> Seq<Seq<char>> {
    let ps = split_on(l, '`');
    link_parts(l, 0) + quoted_paths(ps, ps.len())
}

/// `t` up to its first `#` or `?` (`t.split(['#', '?']).next()`).
pub open spec fn before_anchor(t: Seq<char>) -> Seq<char> {
    if exists|i: int| 0 <= i < t.len() && (t[i] == '#' || t[i] == '?') {
        t.take(choose|i: int| 0 <= i < t.len() && (t[i] == '#' || t[i] == '?') && forall|j: int| 0 <= j < i ==> t[j] != '#' && t[j] != '?')
    } else {
        t
    }
}

/// The characters that mark a glob or a template placeholder.
pub open spec fn pattern_char(c: char) -> bool {
    c == '*' || c == '?' || c == '[' || c == ']' || c == '{' || c == '}' || c == '<' || c == '>' || c == '$'
}

/// Whether candidate `target` is a relative file reference worth checking,
/// rather than a URL, an anchor, an absolute or home-relative path, a
/// scoped package name, a glob or a template placeholder.
pub open spec fn intended_reference(target: Seq<char>) -> bool {
    let t = trim(target);
    &&& t.len() > 0
    &&& trim(before_anchor(t)).len() > 0
    &&& t[0] != '#'
    &&& !contains_seq(t, "://"@)
    &&& !starts_with(t, "mailto:"@)
    &&& t[0] != '~' && t[0] != '/' && t[0] != '@'
    &&& forall|i: int| 0 <= i < t.len() ==> !pattern_char(#[trigger] t[i])
}

/// The index of the first `c` at or after `from`.
fn find_char(l: &Vec<char>, c: char, from: usize) -> (r: Option<usize>)
    ensures
        match r {
            Some(k) => find_from(l@, c, from as int) == Some(k as int),
            None => find_from(l@, c, from as int).is_none(),
        },
    decreases l.len() - from,
{
    if from >= l.len() {
        return None;
    }
    if l[from] == c {
        Some(from)
    } else {
        find_char(l, c, from + 1)
    }
}

/// Where `pat` first occurs in `t`.
fn first_occurrence(t: &Vec<char>, pat: &Vec<char>) -> (r: Option<usize>)
    requires
        pat.len() > 0,
    ensures
        match r {
            Some(i) => occurs_at(t@, pat@, i as int) && forall|j: int| 0 <= j < i ==> !occurs_at(t@, pat@, j),
            None => forall|j: int| !occurs_at(t@, pat@, j),
        },
{
    let mut i: usize = 0;
    while i < t.len()
        invariant
            pat.len() > 0,
            forall|j: int| 0 <= j < i ==> !occurs_at(t@, pat@, j),
        decreases t.len() - i,
    {
        if crate::chars::matches_at(t, pat, i) {
            return Some(i);
        }
        i += 1;
    }
    proof {
        assert forall|j: int| !occurs_at(t@, pat@, j) by {
            if 0 <= j && j >= i && occurs_at(t@, pat@, j) {
                assert(j + pat@.len() <= t@.len());
                if pat@.len() > 0 {
                    assert(j < t@.len());
                }
            }
        }
    }
    None
}

fn take_chars(t: &Vec<char>, n: usize) -> (r: Vec<char>)
    requires
        n <= t.len(),
    ensures
        r@ == t@.take(n as int),
{
    let mut out: Vec<char> = Vec::new();
    let mut i: usize = 0;
    while i < n
        invariant
            i <= n <= t.len(),
            out@ == t@.take(i as int),
        decreases n - i,
    {
        out.push(t[i]);
        proof {
            assert(t@.take(i + 1) =~= t@.take(i as int).push(t@[i as int]));
        }
        i += 1;
    }
    out
}

fn cut_title(t: &Vec<char>) -> (r: Vec<char>)
    ensures
        r@ == before_title(t@),
{
    let pat = vec![' ', '"'];
    proof {
        assert(pat@ =~= seq![' ', '"']);
    }
    match first_occurrence(t, &pat) {
        Some(i) => {
            proof {
                let k = choose|k: int| occurs_at(t@, seq![' ', '"'], k) && forall|j: int| 0 <= j < k ==> !occurs_at(t@, seq![' ', '"'], j);
                if k < i {
                } else if k > i {
                    assert(!occurs_at(t@, seq![' ', '"'], i as int));
                }
                assert(k == i);
            }
            take_chars(t, i)
        },
        None => {
            let mut out: Vec<char> = Vec::new();
            let mut i: usize = 0;
            while i < t.len()
                invariant
                    i <= t.len(),
                    out@ == t@.take(i as int),
                decreases t.len() - i,
            {
                out.push(t[i]);
                proof {
                    assert(t@.take(i + 1) =~= t@.take(i as int).push(t@[i as int]));
                }
                i += 1;
            }
            proof {
                assert(t@.take(t.len() as int) =~= t@);
            }
            out
        },
    }
}

/// `t` up to its first `#` or `?`.
pub fn cut_anchor(t: &Vec<char>) -> (r: Vec<char>)
    ensures
        r@ == before_anchor(t@),
{
    let mut i: usize = 0;
    while i < t.len() && t[i] != '#' && t[i] != '?'
        invariant
            i <= t.len(),
            forall|j: int| 0 <= j < i ==> t@[j] != '#' && t@[j] != '?',
        decreases t.len() - i,
    {
        i += 1;
    }
    proof {
        if i < t.len() {
            let k = choose|k: int| 0 <= k < t@.len() && (t@[k] == '#' || t@[k] == '?') && forall|j: int| 0 <= j < k ==> t@[j] != '#' && t@[j] != '?';
            if k > i {
                assert(t@[i as int] != '#' && t@[i as int] != '?');
            }
            assert(k == i);
        } else {
            assert(t@.take(i as int) =~= t@);
        }
    }
    take_chars(t, i)
}

fn subrange_chars(l: &Vec<char>, a: usize, b: usize) -> (r: Vec<char>)
    requires
        a <= b <= l.len(),
    ensures
        r@ == l@.subrange(a as int, b as int),
{
    let mut out: Vec<char> = Vec::new();
    let mut i = a;
    while i < b
        invariant
            a <= i <= b <= l.len(),
            out@ == l@.subrange(a as int, i as int),
        decreases b - i,
    {
        out.push(l[i]);
        i += 1;
    }
    out
}

/// The pieces of `l` between backticks.
fn split_backticks(l: &Vec<char>) -> (r: Vec<Vec<char>>)
    ensures
        char_views(r@) == split_on(l@, '`'),
{
    let mut done: Vec<Vec<char>> = Vec::new();
    let mut cur: Vec<char> = Vec::new();
    let mut i: usize = 0;
    proof {
        assert(l@.take(0) =~= Seq::<char>::empty());
    }
    while i < l.len()
        invariant
            i <= l.len(),
            char_views(done@) + seq![cur@] == split_on(l@.take(i as int), '`'),
        decreases l.len() - i,
    {
        let ghost p = split_on(l@.take(i as int), '`');
        proof {
            assert(l@.take(i + 1).drop_last() =~= l@.take(i as int));
            assert(l@.take(i + 1).last() == l@[i as int]);
        }
        let c = l[i];
        if c == '`' {
            let ghost before = char_views(done@);
            let finished = cur;
            cur = Vec::new();
            done.push(finished);
            proof {
                assert(char_views(done@) =~= before.push(finished@));
                assert(char_views(done@) + seq![cur@] =~= p.push(Seq::empty()));
            }
        } else {
            cur.push(c);
            proof {
                assert(char_views(done@) + seq![cur@] =~= p.update(p.len() - 1, p.last().push(c)));
            }
        }
        i += 1;
    }
    proof {
        assert(l@.take(l.len() as int) =~= l@);
    }
    let ghost before = char_views(done@);
    done.push(cur);
    proof {
        assert(char_views(done@) =~= before + seq![cur@]);
    }
    done
}

/// Whether backtick-quoted span `s` looks like a relative file path.
fn looks_like_explicit_path(s: &Vec<char>) -> (r: bool)
    ensures
        r == looks_like_path(s@),
{
    if s.len() == 0 {
        return false;
    }
    let mut i: usize = 0;
    let mut has_slash = false;
    while i < s.len()
        invariant
            i <= s.len(),
            forall|j: int| 0 <= j < i ==> s@[j] != ' ',
            has_slash == exists|j: int| 0 <= j < i && s@[j] == '/',
        decreases s.len() - i,
    {
        if s[i] == ' ' {
            proof {
                assert(s@.contains(' '));
            }
            return false;
        }
        if s[i] == '/' {
            has_slash = true;
        }
        i += 1;
    }
    proof {
        if s@.contains(' ') {
            let k = choose|k: int| 0 <= k < s@.len() && s@[k] == ' ';
            assert(s@[k] != ' ');
        }
        if has_slash {
            let k = choose|k: int| 0 <= k < i && s@[k] == '/';
            assert(s@.contains('/'));
        }
        if s@.contains('/') {
            let k = choose|k: int| 0 <= k < s@.len() && s@[k] == '/';
            assert(has_slash);
        }
    }
    let dot = vec!['.', '/'];
    let dotdot = vec!['.', '.', '/'];
    proof {
        assert(dot@ =~= "./"@) by {
            reveal_strlit("./");
        }
        assert(dotdot@ =~= "../"@) by {
            reveal_strlit("../");
        }
    }
    if starts_with_chars(s, &dot) || starts_with_chars(s, &dotdot) {
        return true;
    }
    if !has_slash {
        return false;
    }
    let lower = to_lowercase(string_of(s).as_str());
    let lc = chars_of(lower.as_str());
    let exts = known_extension_list();
    let mut k: usize = 0;
    let ghost shape = s@.len() > 0 && !s@.contains(' ') && s@.contains('/');
    proof {
        assert(shape);
    }
    while k < exts.len()
        invariant
            k <= exts.len(),
            shape == (s@.len() > 0 && !s@.contains(' ') && s@.contains('/')),
            shape,
            lc@ == unicode_lowercase(s@),
            crate::chars::str_views(exts@) == known_extensions(),
            forall|j: int| 0 <= j < k ==> !ends_with(lc@, #[trigger] known_extensions()[j]),
        decreases exts.len() - k,
    {
        let e = chars_of(exts[k]);
        proof {
            assert(e@ == known_extensions()[k as int]);
        }
        if ends_with_chars(&lc, &e) {
            proof {
                assert(ends_with(unicode_lowercase(s@), known_extensions()[k as int]));
            }
            return true;
        }
        k += 1;
    }
    false
}

/// The candidate file references of line `l`.
pub fn extract_link_targets(l: &Vec<char>) -> (r: Vec<Vec<char>>)
    ensures
        char_views(r@) == link_targets(l@),
{
    let mut out: Vec<Vec<char>> = Vec::new();
    let mut i: usize = 0;
    proof {
        assert(link_parts(l@, 0) == Seq::<Seq<char>>::empty() + link_parts(l@, 0));
    }
    while i < l.len()
        invariant
            i <= l.len(),
            char_views(out@) + link_parts(l@, i as int) == link_parts(l@, 0),
        decreases l.len() - i,
    {
        proof {
            lemma_find_from(l@, ')', i + 2);
        }
        if l[i] == ']' && i + 1 < l.len() && l[i + 1] == '(' {
            match find_char(l, ')', i + 2) {
                Some(c) => {
                    let raw = subrange_chars(l, i + 2, c);
                    let t = cut_title(&raw);
                    let ghost before = char_views(out@);
                    out.push(t);
                    proof {
                        assert(char_views(out@) =~= before.push(t@));
                        assert(link_parts(l@, i as int) == seq![t@] + link_parts(l@, c as int));
                        assert(char_views(out@) + link_parts(l@, c as int) =~= before + link_parts(l@, i as int));
                    }
                    i = c;
                    continue;
                },
                None => {},
            }
        }
        i += 1;
    }
    let pieces = split_backticks(l);
    let ghost ps = char_views(pieces@);
    let mut k: usize = 0;
    proof {
        assert(char_views(out@) =~= link_parts(l@, 0) + quoted_paths(ps, 0));
    }
    while k < pieces.len()
        invariant
            k <= pieces.len(),
            ps == char_views(pieces@),
            char_views(out@) == link_parts(l@, 0) + quoted_paths(ps, k as nat),
        decreases pieces.len() - k,
    {
        let ghost before = char_views(out@);
        if k % 2 == 1 {
            let t = trim_chars(&pieces[k]);
            proof {
                assert(ps[k as int] == pieces@[k as int]@);
            }
            if looks_like_explicit_path(&t) {
                out.push(t);
                proof {
                    assert(char_views(out@) =~= before.push(t@));
                }
            }
        }
        proof {
            assert(char_views(out@) =~= link_parts(l@, 0) + quoted_paths(ps, (k + 1) as nat));
        }
        k += 1;
    }
    out
}

/// Whether candidate `target` is a relative file reference worth checking.
pub fn is_intended_file_reference(target: &Vec<char>) -> (r: bool)
    ensures
        r == intended_reference(target@),
{
    let t = trim_chars(target);
    if t.len() == 0 {
        return false;
    }
    let pp = trim_chars(&cut_anchor(&t));
    if pp.len() == 0 {
        return false;
    }
    if t[0] == '#' {
        return false;
    }
    let scheme = vec![':', '/', '/'];
    let mailto = vec!['m', 'a', 'i', 'l', 't', 'o', ':'];
    proof {
        assert(scheme@ =~= "://"@) by {
            reveal_strlit("://");
        }
        assert(mailto@ =~= "mailto:"@) by {
            reveal_strlit("mailto:");
        }
    }
    if contains_chars(&t, &scheme) || starts_with_chars(&t, &mailto) {
        return false;
    }
    if t[0] == '~' || t[0] == '/' || t[0] == '@' {
        return false;
    }
    let mut i: usize = 0;
    while i < t.len()
        invariant
            i <= t.len(),
            t@ == trim(target@),
            forall|j: int| 0 <= j < i ==> !pattern_char(#[trigger] t@[j]),
        decreases t.len() - i,
    {
        let c = t[i];
        if c == '*' || c == '?' || c == '[' || c == ']' || c == '{' || c == '}' || c == '<' || c == '>'
            || c == '$' {
            proof {
                assert(pattern_char(t@[i as int]));
            }
            return false;
        }
        i += 1;
    }
    true
}

} // verus!
