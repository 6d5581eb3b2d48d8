//! Companion files: the files that live next to a SKILL.md.

use vstd::prelude::*;
use crate::chars::{chars_of, starts_with};
use crate::text::ascii_lower;

verus! {

/// `k` is the index of the last `.` in `name`.
pub open spec fn last_dot_at(name: Seq<char>, k: int) -> bool {
    0 <= k < name.len() && name[k] == '.' && forall|j: int| k < j < name.len() ==> #[trigger] name[j] != '.'
}

/// The part of file name `name` before its last `.` (all of it when there
/// is no `.`), as `name.rsplit_once('.')` splits it.
pub open spec fn file_stem(name: Seq<char>) -> Seq<char> {
    if exists|k: int| last_dot_at(name, k) {
        name.take(choose|k: int| last_dot_at(name, k))
    } else {
        name
    }
}

/// Whether bare file name `name` is a license file: stem `license`,
/// `licence`, `copying` or `copyright`, or a stem that starts with
/// `license-` or `licence-`, ignoring ASCII case.
pub open spec fn license_name(name: Seq<char>) -> bool {
    let stem = file_stem(name).map_values(|c: char| ascii_lower(c));
    ||| stem == "license"@
    ||| stem == "licence"@
    ||| stem == "copying"@
    ||| stem == "copyright"@
    ||| starts_with(stem, "license-"@)
    ||| starts_with(stem, "licence-"@)
}

proof fn lemma_stem_at(name: Seq<char>, k: int)
    requires
        -1 <= k < name.len(),
        k >= 0 ==> name[k] == '.',
        forall|j: int| k < j < name.len() ==> name[j] != '.',
    ensures
        file_stem(name) == (if k >= 0 { name.take(k) } else { name }),
{
    if k >= 0 {
        assert(last_dot_at(name, k));
        let c = choose|c: int| last_dot_at(name, c);
        assert(last_dot_at(name, c));
        if c < k {
            assert(name[k] != '.');
        } else if c > k {
            assert(name[c] != '.');
        }
    } else {
        if exists|c: int| last_dot_at(name, c) {
            let c = choose|c: int| last_dot_at(name, c);
            assert(name[c] != '.');
        }
    }
}

/// Whether bare file name `name` is a license file (`LICENSE`, `LICENCE`,
/// `COPYING`, `COPYRIGHT` with any extension, or `LICENSE-*` /
/// `LICENCE-*`), matching the stem case-insensitively.
pub fn is_license_file(name: &str) -> (r: bool)
    ensures
        r == license_name(name@),
{
    let cs = chars_of(name);
    let mut k: usize = cs.len();
    let mut found = false;
    while k > 0 && !found
        invariant
            k <= cs.len(),
            found ==> k < cs.len() && cs@[k as int] == '.',
            forall|j: int| (if found { k + 1 } else { k as int }) <= j < cs.len() ==> cs@[j] != '.',
        decreases k + (if found { 0int } else { 1int }),
    {
        if cs[k - 1] == '.' {
            k -= 1;
            found = true;
        } else {
            k -= 1;
        }
    }
    let end = if found { k } else { cs.len() };
    proof {
        if found {
            lemma_stem_at(cs@, k as int);
        } else {
            lemma_stem_at(cs@, -1);
        }
    }
    let mut stem: Vec<char> = Vec::new();
    let mut i: usize = 0;
    while i < end
        invariant
            i <= end <= cs.len(),
            stem@ == cs@.take(i as int).map_values(|c: char| ascii_lower(c)),
        decreases end - i,
    {
        let c = cs[i];
        let lc = if 'A' <= c && c <= 'Z' { ((c as u8) + 32) as char } else { c };
        stem.push(lc);
        proof {
            assert(cs@.take(i + 1).map_values(|c: char| ascii_lower(c)) =~= cs@.take(i as int).map_values(
                |c: char| ascii_lower(c),
            ).push(ascii_lower(c)));
        }
        i += 1;
    }
    proof {
        assert(cs@.take(cs.len() as int) =~= cs@);
        assert(stem@ == file_stem(name@).map_values(|c: char| ascii_lower(c)));
    }
    let r = seq_is(&stem, "license") || seq_is(&stem, "licence") || seq_is(&stem, "copying")
        || seq_is(&stem, "copyright") || prefix_is(&stem, "license-") || prefix_is(&stem, "licence-");
    r
}

/// Whether `a` and `b` hold the same characters.
pub fn same_chars(a: &Vec<char>, b: &Vec<char>) -> (r: bool)
    ensures
        r == (a@ == b@),
{
    if a.len() != b.len() {
        return false;
    }
    let mut i: usize = 0;
    while i < a.len()
        invariant
            i <= a.len() == b.len(),
            forall|j: int| 0 <= j < i ==> a@[j] == b@[j],
        decreases a.len() - i,
    {
        if a[i] != b[i] {
            proof {
                assert(a@[i as int] != b@[i as int]);
            }
            return false;
        }
        i += 1;
    }
    proof {
        assert(a@ =~= b@);
    }
    true
}

fn seq_is(v: &Vec<char>, s: &str) -> (r: bool)
    ensures
        r == (v@ == s@),
{
    let t = chars_of(s);
    if v.len() != t.len() {
        return false;
    }
    let mut i: usize = 0;
    while i < v.len()
        invariant
            i <= v.len() == t.len(),
            t@ == s@,
            forall|j: int| 0 <= j < i ==> v@[j] == t@[j],
        decreases v.len() - i,
    {
        if v[i] != t[i] {
            proof {
                assert(v@[i as int] != t@[i as int]);
                assert(v@ != t@);
            }
            return false;
        }
        i += 1;
    }
    proof {
        assert(v@ =~= t@);
    }
    true
}

fn prefix_is(v: &Vec<char>, s: &str) -> (r: bool)
    ensures
        r == starts_with(v@, s@),
{
    let t = chars_of(s);
    crate::chars::starts_with_chars(v, &t)
}

} // verus!
