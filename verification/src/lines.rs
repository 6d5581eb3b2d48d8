//! Splitting text into lines the way `str::lines` does.

use vstd::prelude::*;
use crate::chars::{chars_of, string_of};
use crate::text::views;

verus! {

/// The pieces of `s` between `\n` characters (`s.split('\n')`): always one
/// more than the number of newlines.
pub open spec fn pieces(s: Seq<char>) -> Seq<Seq<char>>
    decreases s.len(),
{
    if s.len() == 0 {
        seq![Seq::empty()]
    } else {
        let p = pieces(s.drop_last());
        if s.last() == '\n' {
            p.push(Seq::empty())
        } else {
            p.update(p.len() - 1, p.last().push(s.last()))
        }
    }
}

/// `l` without one trailing `\r`.
pub open spec fn strip_cr(l: Seq<char>) -> Seq<char> {
    if l.len() > 0 && l.last() == '\r' {
        l.drop_last()
    } else {
        l
    }
}

/// The lines of `s` (`str::lines`): split at `\n`, a `\r` right before a
/// `\n` dropped, and no empty last line for text that ends in a newline.
pub open spec fn lines_of(s: Seq<char>) -> Seq<Seq<char>> {
    let p = pieces(s);
    let full = p.drop_last().map_values(|l: Seq<char>| strip_cr(l));
    if p.last().len() == 0 {
        full
    } else {
        full.push(p.last())
    }
}

pub proof fn lemma_pieces_len(s: Seq<char>)
    ensures
        pieces(s).len() >= 1,
    decreases s.len(),
{
    if s.len() > 0 {
        lemma_pieces_len(s.drop_last());
    }
}

/// Appending text without a newline only extends the last piece.
pub proof fn lemma_pieces_append(x: Seq<char>, y: Seq<char>)
    requires
        forall|i: int| 0 <= i < y.len() ==> y[i] != '\n',
    ensures
        pieces(x + y) == pieces(x).update(pieces(x).len() - 1, pieces(x).last() + y),
    decreases y.len(),
{
    lemma_pieces_len(x);
    if y.len() == 0 {
        assert(x + y =~= x);
        assert(pieces(x).last() + y =~= pieces(x).last());
        assert(pieces(x).update(pieces(x).len() - 1, pieces(x).last()) =~= pieces(x));
    } else {
        let y1 = y.drop_last();
        lemma_pieces_append(x, y1);
        assert((x + y).drop_last() =~= x + y1);
        assert((x + y).last() == y.last());
        assert((pieces(x).last() + y1).push(y.last()) =~= pieces(x).last() + y);
        assert(pieces(x + y) =~= pieces(x).update(pieces(x).len() - 1, pieces(x).last() + y));
    }
}

/// The lines of `s`, as `str::lines` yields them.
pub fn lines(s: &str) -> (r: Vec<String>)
    ensures
        views(r@) == lines_of(s@),
{
    let cs = chars_of(s);
    let mut done: Vec<String> = Vec::new();
    let mut cur: Vec<char> = Vec::new();
    let mut i: usize = 0;
    proof {
        assert(cs@.take(0) =~= Seq::<char>::empty());
    }
    while i < cs.len()
        invariant
            i <= cs.len(),
            cs@ == s@,
            views(done@) == pieces(cs@.take(i as int)).drop_last().map_values(|l: Seq<char>| strip_cr(l)),
            cur@ == pieces(cs@.take(i as int)).last(),
        decreases cs.len() - i,
    {
        let ghost t = cs@.take(i as int);
        let ghost p = pieces(t);
        proof {
            lemma_pieces_len(t);
            assert(cs@.take(i + 1).drop_last() =~= t);
            assert(cs@.take(i + 1).last() == cs@[i as int]);
        }
        let c = cs[i];
        if c == '\n' {
            let n = cur.len();
            let line = if n > 0 && cur[n - 1] == '\r' {
                let mut trimmed: Vec<char> = Vec::new();
                let mut k: usize = 0;
                while k + 1 < n
                    invariant
                        n == cur.len(),
                        k < n,
                        trimmed@ == cur@.take(k as int),
                    decreases n - k,
                {
                    trimmed.push(cur[k]);
                    proof {
                        assert(cur@.take(k + 1) =~= cur@.take(k as int).push(cur@[k as int]));
                    }
                    k += 1;
                }
                proof {
                    assert(cur@.take(k as int) =~= cur@.drop_last());
                }
                string_of(&trimmed)
            } else {
                string_of(&cur)
            };
            let ghost before = views(done@);
            proof {
                assert(line@ == strip_cr(cur@));
            }
            done.push(line);
            cur = Vec::new();
            proof {
                assert(views(done@) =~= before.push(strip_cr(p.last())));
                assert(p.map_values(|l: Seq<char>| strip_cr(l)) =~= p.drop_last().map_values(
                    |l: Seq<char>| strip_cr(l),
                ).push(strip_cr(p.last())));
                let np = pieces(cs@.take(i + 1));
                assert(np == p.push(Seq::empty()));
                assert(np.drop_last() =~= p);
                assert(p == p.drop_last().push(p.last()));
                assert(views(done@) =~= np.drop_last().map_values(|l: Seq<char>| strip_cr(l)));
            }
        } else {
            cur.push(c);
            proof {
                let np = pieces(cs@.take(i + 1));
                assert(np.drop_last() =~= p.drop_last());
            }
        }
        i += 1;
    }
    proof {
        assert(cs@.take(cs.len() as int) =~= cs@);
        lemma_pieces_len(cs@);
    }
    if cur.len() > 0 {
        let ghost before = views(done@);
        done.push(string_of(&cur));
        proof {
            assert(views(done@) =~= before.push(cur@));
        }
    }
    done
}

} // verus!
