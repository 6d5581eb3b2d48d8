//! Unix path structure as `std::path::Path` sees it: the components of a
//! path, the order paths sort in, and the name of a file's directory.
//!
//! Paths are held as text. A path's components are an optional root (`/`)
//! or a leading current-directory marker (`.`), followed by its `/`-separated
//! segments, with empty segments and interior `.` segments dropped and `..`
//! kept as a parent-directory marker.

use vstd::prelude::*;
use crate::chars::{chars_of, string_of};
use crate::order::{
    chars_before, char_lt, lemma_char_lt_total, lemma_lex_strict_total, lex_lt, strict_total,
    text_lt,
};
use crate::text::{char_views, class_pred, runs, runs_of, CharClass};

verus! {

/// One component of a path.
pub enum PartView {
    /// The leading `/` of an absolute path.
    Root,
    /// A leading `.` of a relative path.
    Cur,
    /// A `..` segment.
    Parent,
    /// Any other segment.
    Normal(Seq<char>),
}

/// One component of a path, as held at run time.
pub enum Part {
    Root,
    Cur,
    Parent,
    Normal(Vec<char>),
}

impl View for Part {
    type V = PartView;

    open spec fn view(&self) -> PartView {
        match self {
            Part::Root => PartView::Root,
            Part::Cur => PartView::Cur,
            Part::Parent => PartView::Parent,
            Part::Normal(s) => PartView::Normal(s@),
        }
    }
}

pub open spec fn part_views(v: Seq<Part>) -> Seq<PartView> {
    v.map_values(|p: Part| p@)
}

pub open spec fn not_slash() -> spec_fn(char) -> bool {
    |c: char| c != '/'
}

/// The component a segment stands for.
pub open spec fn part_of(seg: Seq<char>) -> PartView {
    if seg == seq!['.', '.'] {
        PartView::Parent
    } else {
        PartView::Normal(seg)
    }
}

/// The components of a sequence of segments, `.` segments dropped.
pub open spec fn parts_of(segs: Seq<Seq<char>>) -> Seq<PartView>
    decreases segs.len(),
{
    if segs.len() == 0 {
        Seq::empty()
    } else if segs.last() == seq!['.'] {
        parts_of(segs.drop_last())
    } else {
        parts_of(segs.drop_last()).push(part_of(segs.last()))
    }
}

/// The component a path starts with before its segments: the root of an
/// absolute path, or the `.` that a relative path starts with.
pub open spec fn lead_part(p: Seq<char>) -> Seq<PartView> {
    if p.len() > 0 && p[0] == '/' {
        seq![PartView::Root]
    } else if p.len() > 0 && p[0] == '.' && (p.len() == 1 || p[1] == '/') {
        seq![PartView::Cur]
    } else {
        Seq::empty()
    }
}

/// The components of path `p` (`Path::components`).
pub open spec fn components(p: Seq<char>) -> Seq<PartView> {
    lead_part(p) + parts_of(runs(p, not_slash()))
}

pub open spec fn part_rank(x: PartView) -> int {
    match x {
        PartView::Root => 0,
        PartView::Cur => 1,
        PartView::Parent => 2,
        PartView::Normal(_) => 3,
    }
}

/// The order of components: root, then `.`, then `..`, then ordinary
/// segments by their text.
pub open spec fn part_lt() -> spec_fn(PartView, PartView) -> bool {
    |x: PartView, y: PartView|
        part_rank(x) < part_rank(y) || (match (x, y) {
            (PartView::Normal(a), PartView::Normal(b)) => text_lt(a, b),
            _ => false,
        })
}

/// Path `a` sorts strictly before path `b`: their components compared
/// lexicographically (`PathBuf`'s `<`).
pub open spec fn path_lt(a: Seq<char>, b: Seq<char>) -> bool {
    lex_lt(components(a), components(b), part_lt())
}

/// The name of the directory that holds the file at `p`
/// (`p.parent().and_then(Path::file_name)`): present when the component
/// before the last one is an ordinary segment.
pub open spec fn dir_name(p: Seq<char>) -> Option<Seq<char>> {
    let c = components(p);
    if c.len() >= 2 {
        match c[c.len() - 2] {
            PartView::Normal(s) => Some(s),
            _ => None,
        }
    } else {
        None
    }
}

pub proof fn lemma_part_lt_total()
    ensures
        strict_total(part_lt()),
{
    lemma_char_lt_total();
    lemma_lex_strict_total(char_lt());
    let t = |a: Seq<char>, b: Seq<char>| lex_lt(a, b, char_lt());
    assert(strict_total(t));
    let l = part_lt();
    assert forall|x: PartView| !#[trigger] l(x, x) by {
        if let PartView::Normal(a) = x {
            assert(!t(a, a));
        }
    }
    assert forall|x: PartView, y: PartView, z: PartView| #[trigger] l(x, y) && #[trigger] l(y, z) implies l(x, z) by {
        if let (PartView::Normal(a), PartView::Normal(b), PartView::Normal(c)) = (x, y, z) {
            if t(a, b) && t(b, c) {
                assert(t(a, c));
            }
        }
    }
    assert forall|x: PartView, y: PartView| x != y implies #[trigger] l(x, y) || #[trigger] l(y, x) by {
        if let (PartView::Normal(a), PartView::Normal(b)) = (x, y) {
            assert(a != b);
            assert(t(a, b) || t(b, a));
        }
    }
}

/// Path order is a strict total order on component sequences.
pub proof fn lemma_path_order_total()
    ensures
        strict_total(|a: Seq<PartView>, b: Seq<PartView>| lex_lt(a, b, part_lt())),
{
    lemma_part_lt_total();
    lemma_lex_strict_total(part_lt());
}

/// The components of `p`.
pub fn components_of(p: &str) -> (r: Vec<Part>)
    ensures
        part_views(r@) == components(p@),
{
    let cs = chars_of(p);
    let segs = runs_of(&cs, CharClass::NotSlash);
    proof {
        assert(class_pred(CharClass::NotSlash) == not_slash());
    }
    let ghost sv = char_views(segs@);
    let mut out: Vec<Part> = Vec::new();
    if cs.len() > 0 && cs[0] == '/' {
        out.push(Part::Root);
    } else if cs.len() > 0 && cs[0] == '.' && (cs.len() == 1 || cs[1] == '/') {
        out.push(Part::Cur);
    }
    let ghost lead = part_views(out@);
    proof {
        assert(lead =~= lead_part(p@));
        assert(sv.take(0) =~= Seq::<Seq<char>>::empty());
        assert(part_views(out@) =~= lead + parts_of(sv.take(0)));
    }
    let mut i: usize = 0;
    while i < segs.len()
        invariant
            i <= segs.len(),
            sv == char_views(segs@),
            part_views(out@) == lead + parts_of(sv.take(i as int)),
        decreases segs.len() - i,
    {
        let seg = &segs[i];
        let ghost before = part_views(out@);
        proof {
            assert(sv.take(i + 1).drop_last() =~= sv.take(i as int));
            assert(sv.take(i + 1).last() == seg@);
        }
        if seg.len() == 1 && seg[0] == '.' {
            proof {
                assert(seg@ =~= seq!['.']);
            }
        } else if seg.len() == 2 && seg[0] == '.' && seg[1] == '.' {
            out.push(Part::Parent);
            proof {
                assert(seg@ =~= seq!['.', '.']);
                assert(seg@ != seq!['.']);
                assert(part_views(out@) =~= before.push(PartView::Parent));
            }
        } else {
            let mut copy: Vec<char> = Vec::new();
            let mut j: usize = 0;
            while j < seg.len()
                invariant
                    j <= seg.len(),
                    copy@ == seg@.take(j as int),
                decreases seg.len() - j,
            {
                copy.push(seg[j]);
                proof {
                    assert(seg@.take(j + 1) =~= seg@.take(j as int).push(seg@[j as int]));
                }
                j += 1;
            }
            proof {
                assert(seg@.take(seg.len() as int) =~= seg@);
                if seg@ == seq!['.'] {
                    assert(seg@.len() == 1 && seg@[0] == '.');
                }
                if seg@ == seq!['.', '.'] {
                    assert(seg@.len() == 2 && seg@[0] == '.' && seg@[1] == '.');
                }
            }
            out.push(Part::Normal(copy));
            proof {
                assert(part_views(out@) =~= before.push(PartView::Normal(seg@)));
            }
        }
        proof {
            assert(part_views(out@) =~= lead + parts_of(sv.take(i + 1)));
        }
        i += 1;
    }
    proof {
        assert(sv.take(segs.len() as int) =~= sv);
    }
    out
}

fn part_before(x: &Part, y: &Part) -> (r: bool)
    ensures
        r == part_lt()(x@, y@),
{
    match (x, y) {
        (Part::Normal(a), Part::Normal(b)) => chars_before(a, b),
        _ => rank_of(x) < rank_of(y),
    }
}

fn rank_of(x: &Part) -> (r: u8)
    ensures
        r == part_rank(x@),
{
    match x {
        Part::Root => 0,
        Part::Cur => 1,
        Part::Parent => 2,
        Part::Normal(_) => 3,
    }
}

fn parts_equal(x: &Part, y: &Part) -> (r: bool)
    ensures
        r == (x@ == y@),
{
    match (x, y) {
        (Part::Root, Part::Root) => true,
        (Part::Cur, Part::Cur) => true,
        (Part::Parent, Part::Parent) => true,
        (Part::Normal(a), Part::Normal(b)) => {
            let r = !chars_before(a, b) && !chars_before(b, a);
            proof {
                lemma_char_lt_total();
                lemma_lex_strict_total(char_lt());
                let t = |u: Seq<char>, v: Seq<char>| lex_lt(u, v, char_lt());
                if a@ != b@ {
                    assert(t(a@, b@) || t(b@, a@));
                }
                if a@ == b@ {
                    assert(!t(a@, a@));
                }
            }
            r
        },
        _ => false,
    }
}

/// Whether path `a` sorts strictly before path `b`.
pub fn path_before(a: &str, b: &str) -> (r: bool)
    ensures
        r == path_lt(a@, b@),
{
    let ca = components_of(a);
    let cb = components_of(b);
    let ghost va = part_views(ca@);
    let ghost vb = part_views(cb@);
    let mut i: usize = 0;
    proof {
        assert(va.skip(0) =~= va);
        assert(vb.skip(0) =~= vb);
    }
    while i < ca.len() && i < cb.len() && parts_equal(&ca[i], &cb[i])
        invariant
            i <= ca.len(),
            i <= cb.len(),
            va == part_views(ca@),
            vb == part_views(cb@),
            va == components(a@),
            vb == components(b@),
            path_lt(a@, b@) == lex_lt(va.skip(i as int), vb.skip(i as int), part_lt()),
        decreases ca.len() - i,
    {
        proof {
            assert(va.skip(i as int).drop_first() =~= va.skip(i + 1));
            assert(vb.skip(i as int).drop_first() =~= vb.skip(i + 1));
            assert(va.skip(i as int)[0] == va[i as int]);
            assert(vb.skip(i as int)[0] == vb[i as int]);
        }
        i += 1;
    }
    proof {
        if i < ca.len() && i < cb.len() {
            assert(va.skip(i as int)[0] == ca@[i as int]@);
            assert(vb.skip(i as int)[0] == cb@[i as int]@);
        }
    }
    if i == ca.len() {
        i < cb.len()
    } else if i == cb.len() {
        false
    } else {
        part_before(&ca[i], &cb[i])
    }
}

/// The name of the directory holding the file at `p`, if it has one.
pub fn parent_dir_name(p: &str) -> (r: Option<String>)
    ensures
        match r {
            Some(s) => dir_name(p@) == Some(s@),
            None => dir_name(p@).is_none(),
        },
{
    let parts = components_of(p);
    let n = parts.len();
    if n < 2 {
        return None;
    }
    proof {
        assert(part_views(parts@)[n - 2] == parts@[n - 2]@);
    }
    match &parts[n - 2] {
        Part::Normal(s) => Some(string_of(s)),
        _ => None,
    }
}

/// The text of a component other than the root.
pub open spec fn part_text(x: PartView) -> Seq<char> {
    match x {
        PartView::Root => "/"@,
        PartView::Cur => "."@,
        PartView::Parent => ".."@,
        PartView::Normal(s) => s,
    }
}

/// The path made of components `cs`, written with single `/` separators.
pub open spec fn render(cs: Seq<PartView>) -> Seq<char> {
    if cs.len() > 0 && cs[0] is Root {
        "/"@ + crate::text::join(cs.drop_first().map_values(|x: PartView| part_text(x)), '/')
    } else {
        crate::text::join(cs.map_values(|x: PartView| part_text(x)), '/')
    }
}

/// `dir` joined with the relative name `name` (`Path::join`).
pub open spec fn join_name(dir: Seq<char>, name: Seq<char>) -> Seq<char> {
    if dir.len() == 0 {
        name
    } else if dir.last() == '/' {
        dir + name
    } else {
        dir + "/"@ + name
    }
}

/// The directory holding the file at `p` (`Path::parent`): absent for an
/// empty path and for the root.
pub open spec fn parent_of(p: Seq<char>) -> Option<Seq<char>> {
    let c = components(p);
    if c.len() == 0 || c.last() is Root {
        None
    } else {
        Some(render(c.drop_last()))
    }
}

fn push_part_text(out: &mut String, x: &Part)
    ensures
        final(out)@ == old(out)@ + part_text(x@),
{
    match x {
        Part::Root => crate::chars::push_str(out, "/"),
        Part::Cur => crate::chars::push_str(out, "."),
        Part::Parent => crate::chars::push_str(out, ".."),
        Part::Normal(s) => crate::chars::push_all(out, s),
    }
}

/// The path made of the first `k` components of `parts`.
pub fn render_parts(parts: &Vec<Part>, k: usize) -> (r: String)
    requires
        k <= parts.len(),
    ensures
        r@ == render(part_views(parts@).take(k as int)),
{
    let ghost cs = part_views(parts@).take(k as int);
    let mut out = String::new();
    let rooted = k > 0 && matches!(parts[0], Part::Root);
    let start: usize = if rooted { 1 } else { 0 };
    if rooted {
        crate::chars::push_str(&mut out, "/");
    }
    let ghost texts = if rooted {
        cs.drop_first().map_values(|x: PartView| part_text(x))
    } else {
        cs.map_values(|x: PartView| part_text(x))
    };
    proof {
        if k > 0 {
            assert(cs[0] == parts@[0]@);
        }
        assert(texts.take(0) =~= Seq::<Seq<char>>::empty());
        if rooted {
            assert("/"@ + crate::text::join(texts.take(0), '/') =~= out@) by {
                reveal_strlit("/");
            }
        } else {
            assert(out@ =~= crate::text::join(texts.take(0), '/'));
        }
    }
    let mut i = start;
    while i < k
        invariant
            start <= i <= k <= parts.len(),
            start == (if rooted { 1usize } else { 0usize }),
            cs == part_views(parts@).take(k as int),
            rooted == (cs.len() > 0 && cs[0] is Root),
            texts == (if rooted {
                cs.drop_first().map_values(|x: PartView| part_text(x))
            } else {
                cs.map_values(|x: PartView| part_text(x))
            }),
            texts.len() == k - start,
            out@ == (if rooted { "/"@ } else { Seq::empty() }) + crate::text::join(texts.take(i - start), '/'),
        decreases k - i,
    {
        let ghost prev = texts.take(i - start);
        proof {
            assert(texts[i - start] == part_text(parts@[i as int]@));
            assert(texts.take(i - start + 1) =~= prev.push(texts[i - start]));
            crate::text::lemma_join_push(prev, texts[i - start], '/');
        }
        if i > start {
            crate::chars::push_char(&mut out, '/');
        }
        push_part_text(&mut out, &parts[i]);
        proof {
            if rooted {
                assert(out@ =~= "/"@ + crate::text::join(texts.take(i - start + 1), '/'));
            } else {
                assert(out@ =~= crate::text::join(texts.take(i - start + 1), '/'));
            }
        }
        i += 1;
    }
    proof {
        assert(texts.take(k - start) =~= texts);
        if !rooted {
            assert(out@ =~= crate::text::join(texts, '/'));
        }
    }
    out
}

/// The directory holding the file at `p`, if it has one.
pub fn parent_path(p: &str) -> (r: Option<String>)
    ensures
        match r {
            Some(s) => parent_of(p@) == Some(s@),
            None => parent_of(p@).is_none(),
        },
{
    let parts = components_of(p);
    let n = parts.len();
    if n == 0 {
        return None;
    }
    proof {
        assert(part_views(parts@).last() == parts@[n - 1]@);
        assert(part_views(parts@).take(n - 1) =~= part_views(parts@).drop_last());
    }
    match &parts[n - 1] {
        Part::Root => None,
        _ => Some(render_parts(&parts, n - 1)),
    }
}

} // verus!
