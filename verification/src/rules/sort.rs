//! The order diagnostics are reported in: by path (component-wise, as
//! paths compare), then line, then column, then rule code; a stable sort,
//! so findings with equal keys keep the order the rules produced them in.

use vstd::prelude::*;
use crate::chars::chars_of;
use crate::diagnostic::{diag_views, Diagnostic, DiagnosticView};
use crate::order::{
    chars_before, char_lt, lemma_char_lt_total, lemma_lex_strict_total, lex_lt, strict_total,
    text_lt,
};
use crate::path::{components, lemma_path_order_total, part_lt, path_before, path_lt, PartView};
use crate::sorting::{isort, lemma_insert_at, weak_order};

verus! {

/// Diagnostic `a` is reported before diagnostic `b`: it sorts first by
/// `(path, line, column, code)`.
pub open spec fn diag_lt() -> spec_fn(DiagnosticView, DiagnosticView) -> bool {
    |a: DiagnosticView, b: DiagnosticView|
        path_lt(a.path, b.path) || (components(a.path) == components(b.path) && (a.line < b.line || (
        a.line == b.line && (a.column < b.column || (a.column == b.column && text_lt(a.code, b.code))))))
}

/// The reporting order is a strict weak order.
pub proof fn lemma_diag_lt_weak_order()
    ensures
        weak_order(diag_lt()),
{
    lemma_path_order_total();
    lemma_char_lt_total();
    lemma_lex_strict_total(char_lt());
    let pl = |a: Seq<PartView>, b: Seq<PartView>| lex_lt(a, b, part_lt());
    let tl = |a: Seq<char>, b: Seq<char>| lex_lt(a, b, char_lt());
    assert(strict_total(pl));
    assert(strict_total(tl));
    let lt = diag_lt();
    assert forall|x: DiagnosticView| !#[trigger] lt(x, x) by {
        assert(!pl(components(x.path), components(x.path)));
        assert(!tl(x.code, x.code));
    }
    assert forall|x: DiagnosticView, y: DiagnosticView, z: DiagnosticView|
        #[trigger] lt(x, y) && #[trigger] lt(y, z) implies lt(x, z) by {
        let (cx, cy, cz) = (components(x.path), components(y.path), components(z.path));
        if pl(cx, cy) && pl(cy, cz) {
            assert(pl(cx, cz));
        } else if pl(cx, cy) && cy == cz {
        } else if cx == cy && pl(cy, cz) {
        } else {
            assert(cx == cy && cy == cz);
            if tl(x.code, y.code) && tl(y.code, z.code) {
                assert(tl(x.code, z.code));
            }
        }
    }
    assert forall|x: DiagnosticView, y: DiagnosticView, z: DiagnosticView|
        !#[trigger] lt(x, y) && !#[trigger] lt(y, z) implies !lt(x, z) by {
        let (cx, cy, cz) = (components(x.path), components(y.path), components(z.path));
        if cx != cy {
            assert(pl(cx, cy) || pl(cy, cx));
        }
        if cy != cz {
            assert(pl(cy, cz) || pl(cz, cy));
        }
        if cx != cz {
            assert(pl(cx, cz) || pl(cz, cx));
        }
        if x.code != y.code {
            assert(tl(x.code, y.code) || tl(y.code, x.code));
        }
        if y.code != z.code {
            assert(tl(y.code, z.code) || tl(z.code, y.code));
        }
        if pl(cy, cx) && pl(cz, cy) {
            assert(pl(cz, cx));
        }
        if pl(cz, cy) && pl(cy, cx) {
            assert(pl(cz, cx));
        }
        if tl(z.code, y.code) && tl(y.code, x.code) {
            assert(tl(z.code, x.code));
        }
        if pl(cx, cz) {
            if pl(cz, cy) {
                assert(pl(cx, cy));
            }
            if pl(cy, cx) {
                assert(pl(cy, cz));
            }
        }
        if tl(x.code, z.code) {
            if tl(z.code, y.code) {
                assert(tl(x.code, y.code));
            }
            if tl(y.code, x.code) {
                assert(tl(y.code, z.code));
            }
        }
    }
}

/// Whether `a` is reported before `b`.
pub fn diag_before(a: &Diagnostic, b: &Diagnostic) -> (r: bool)
    ensures
        r == diag_lt()(a@, b@),
{
    if path_before(a.path.as_str(), b.path.as_str()) {
        return true;
    }
    if path_before(b.path.as_str(), a.path.as_str()) {
        return false;
    }
    proof {
        lemma_path_order_total();
        let pl = |x: Seq<PartView>, y: Seq<PartView>| lex_lt(x, y, part_lt());
        let (ca, cb) = (components(a@.path), components(b@.path));
        if ca != cb {
            assert(pl(ca, cb) || pl(cb, ca));
        }
    }
    if a.line != b.line {
        return a.line < b.line;
    }
    if a.column != b.column {
        return a.column < b.column;
    }
    let ca = chars_of(a.code.as_str());
    let cb = chars_of(b.code.as_str());
    chars_before(&ca, &cb)
}

/// `v` stably sorted into reporting order.
pub fn sort_diagnostics(v: Vec<Diagnostic>) -> (r: Vec<Diagnostic>)
    ensures
        diag_views(r@) == isort(diag_views(v@), diag_lt()),
{
    let ghost orig = diag_views(v@);
    let mut rest = v;
    let mut out: Vec<Diagnostic> = Vec::new();
    let ghost mut done: int = 0;
    proof {
        assert(orig.take(0) =~= Seq::<DiagnosticView>::empty());
        assert(diag_views(rest@) =~= orig.skip(0));
    }
    while rest.len() > 0
        invariant
            0 <= done <= orig.len(),
            rest.len() + done == orig.len(),
            diag_views(rest@) == orig.skip(done),
            diag_views(out@) == isort(orig.take(done), diag_lt()),
        decreases rest.len(),
    {
        let ghost old_rest = rest@;
        proof {
            assert(diag_views(old_rest)[0] == orig[done]);
        }
        let d = rest.remove(0);
        let ghost sorted = diag_views(out@);
        proof {
            assert(d@ == orig[done]);
            assert(rest@ =~= old_rest.subrange(1, old_rest.len() as int));
            assert forall|k: int| 0 <= k < rest@.len() implies #[trigger] diag_views(rest@)[k] == orig.skip(done + 1)[k] by {
                assert(rest@[k] == old_rest[k + 1]);
                assert(diag_views(old_rest)[k + 1] == orig.skip(done)[k + 1]);
            }
            assert(diag_views(rest@) =~= orig.skip(done + 1));
        }
        let mut p = out.len();
        while p > 0 && diag_before(&d, &out[p - 1])
            invariant
                p <= out.len(),
                sorted == diag_views(out@),
                forall|k: int| p <= k < sorted.len() ==> diag_lt()(d@, #[trigger] sorted[k]),
            decreases p,
        {
            proof {
                assert(sorted[p - 1] == out@[p - 1]@);
            }
            p -= 1;
        }
        proof {
            if p > 0 {
                assert(sorted[p - 1] == out@[p - 1]@);
            }
            lemma_insert_at(sorted, d@, diag_lt(), p as int);
            let t = orig.take(done + 1);
            assert(t.drop_last() =~= orig.take(done));
            assert(t.last() == d@);
        }
        out.insert(p, d);
        proof {
            assert(diag_views(out@) =~= sorted.insert(p as int, d@));
            done = done + 1;
        }
    }
    proof {
        assert(orig.take(done) =~= orig);
    }
    out
}

} // verus!
