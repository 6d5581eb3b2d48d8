//! Where an in-progress write of a file is staged: a hidden sibling temp
//! file, renamed over the target once it is complete.

use vstd::prelude::*;
use crate::chars::{push_all, push_str};
use crate::path::{components, components_of, join_name, parent_of, parent_path, part_views, Part, PartView};

verus! {

/// The suffix every staged write carries.
pub const TMP_SUFFIX: &'static str = "adept-tmp";

/// The last component of `p` when it is an ordinary name
/// (`Path::file_name`).
pub open spec fn file_name(p: Seq<char>) -> Option<Seq<char>> {
    let c = components(p);
    if c.len() > 0 {
        match c.last() {
            PartView::Normal(s) => Some(s),
            _ => None,
        }
    } else {
        None
    }
}

/// The temp path a write to `p` stages through: `.{name}.adept-tmp` in the
/// directory of `p` (`.` when `p` has none), where `name` is the file name
/// of `p` (`SKILL.md` when it has none).
pub open spec fn tmp_path(p: Seq<char>) -> Seq<char> {
    let dir = match parent_of(p) {
        Some(d) => d,
        None => "."@,
    };
    let name = match file_name(p) {
        Some(n) => n,
        None => "SKILL.md"@,
    };
    join_name(dir, "."@ + name + "."@ + TMP_SUFFIX@)
}

/// The file name of `p`, if its last component is an ordinary name.
pub fn file_name_of(p: &str) -> (r: Option<Vec<char>>)
    ensures
        match r {
            Some(s) => file_name(p@) == Some(s@),
            None => file_name(p@).is_none(),
        },
{
    let parts = components_of(p);
    let n = parts.len();
    if n == 0 {
        return None;
    }
    proof {
        assert(part_views(parts@).last() == parts@[n - 1]@);
    }
    match &parts[n - 1] {
        Part::Normal(s) => Some(s.clone()),
        _ => None,
    }
}

/// The sibling temp path a write to `p` stages through.
pub fn tmp_path_for(p: &str) -> (r: String)
    ensures
        r@ == tmp_path(p@),
{
    let mut dir = match parent_path(p) {
        Some(d) => d,
        None => String::from_str("."),
    };
    let mut name = String::from_str(".");
    match file_name_of(p) {
        Some(n) => push_all(&mut name, &n),
        None => push_str(&mut name, "SKILL.md"),
    }
    push_str(&mut name, ".");
    push_str(&mut name, TMP_SUFFIX);
    let ghost d = dir@;
    let dir_len = dir.as_str().unicode_len();
    if dir_len == 0 {
        return name;
    }
    let last = dir.as_str().get_char(dir_len - 1);
    if last != '/' {
        push_str(&mut dir, "/");
    }
    push_str(&mut dir, name.as_str());
    proof {
        assert(d.last() == last);
    }
    dir
}

} // verus!
