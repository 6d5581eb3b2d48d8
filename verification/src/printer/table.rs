//! Tables: cells padded to their column's width and aligned, with a
//! delimiter row that records each column's alignment.

use vstd::prelude::*;
use crate::chars::{chars_of, push_char, push_str};
use crate::text::{join_sep, views};
use super::inline::{push_repeat, render_single_line, repeat, single_line};
use super::{Alignment, FmtConfig, Inline};

verus! {

pub open spec fn max_nat(a: nat, b: nat) -> nat {
    if a >= b {
        a
    } else {
        b
    }
}

/// The most cells any of the first `k` rows has.
pub open spec fn widest_row(rows: Seq<Vec<Vec<Inline>>>, k: nat) -> nat
    decreases k,
{
    if k == 0 {
        0
    } else {
        max_nat(widest_row(rows, (k - 1) as nat), rows[k - 1]@.len())
    }
}

/// How many columns a table has: as many as its widest row, its header or
/// its alignments.
pub open spec fn column_count(alignments: Seq<Alignment>, header: Seq<Vec<Inline>>, rows: Seq<Vec<Vec<Inline>>>) -> nat {
    max_nat(max_nat(header.len(), widest_row(rows, rows.len())), alignments.len())
}

/// A row's cells rendered on one line each, padded with empty cells to `n`.
pub open spec fn row_texts(cells: Seq<Vec<Inline>>, n: nat, cfg: FmtConfig) -> Seq<Seq<char>> {
    Seq::new(n, |i: int| if i < cells.len() { single_line(cells[i]@, cfg) } else { Seq::empty() })
}

/// The widest text in column `i` among the first `k` rendered rows.
pub open spec fn column_max(rows: Seq<Seq<Seq<char>>>, i: int, k: nat) -> nat
    decreases k,
{
    if k == 0 {
        0
    } else {
        max_nat(column_max(rows, i, (k - 1) as nat), rows[k - 1][i].len())
    }
}

/// The width of column `i`: at least 3, and the widest text in it.
pub open spec fn column_width(header: Seq<Seq<char>>, rows: Seq<Seq<Seq<char>>>, i: int) -> nat {
    max_nat(max_nat(3, header[i].len()), column_max(rows, i, rows.len()))
}

pub open spec fn align_at(alignments: Seq<Alignment>, i: int) -> Alignment {
    if 0 <= i < alignments.len() {
        alignments[i]
    } else {
        Alignment::Plain
    }
}

/// `s` padded with spaces to `width`, placed by `a`.
pub open spec fn pad_cell(s: Seq<char>, width: nat, a: Alignment) -> Seq<char> {
    let pad: nat = if width > s.len() {
        (width - s.len()) as nat
    } else {
        0
    };
    match a {
        Alignment::Right => repeat(' ', pad) + s,
        Alignment::Center => repeat(' ', pad / 2) + s + repeat(' ', (pad - pad / 2) as nat),
        _ => s + repeat(' ', pad),
    }
}

/// One table row: `| a | b |`.
pub open spec fn row_line(cells: Seq<Seq<char>>, widths: Seq<nat>, alignments: Seq<Alignment>) -> Seq<char> {
    "| "@ + join_sep(
        Seq::new(cells.len(), |i: int| pad_cell(cells[i], widths[i], align_at(alignments, i))),
        " | "@,
    ) + " |"@
}

/// The delimiter cell of a column of width `w` aligned by `a`.
pub open spec fn delimiter_cell(w: nat, a: Alignment) -> Seq<char> {
    let less1: nat = if w >= 1 { (w - 1) as nat } else { 0 };
    let less2: nat = if w >= 2 { (w - 2) as nat } else { 0 };
    match a {
        Alignment::Plain => repeat('-', w),
        Alignment::Left => seq![':'] + repeat('-', less1),
        Alignment::Right => repeat('-', less1) + seq![':'],
        Alignment::Center => seq![':'] + repeat('-', less2) + seq![':'],
    }
}

/// The lines of a table.
pub open spec fn table_lines(
    alignments: Seq<Alignment>,
    header: Seq<Vec<Inline>>,
    rows: Seq<Vec<Vec<Inline>>>,
    cfg: FmtConfig,
) -> Seq<Seq<char>> {
    let n = column_count(alignments, header, rows);
    if n == 0 {
        seq![]
    } else {
        let h = row_texts(header, n, cfg);
        let rs = Seq::new(rows.len(), |r: int| row_texts(rows[r]@, n, cfg));
        let widths = Seq::new(n, |i: int| column_width(h, rs, i));
        seq![
            row_line(h, widths, alignments),
            "| "@ + join_sep(Seq::new(n, |i: int| delimiter_cell(widths[i], align_at(alignments, i))), " | "@)
                + " |"@,
        ] + Seq::new(rows.len(), |r: int| row_line(rs[r], widths, alignments))
    }
}

fn render_row(cells: &Vec<Vec<Inline>>, n: usize, cfg: &FmtConfig) -> (r: Vec<String>)
    ensures
        views(r@) == row_texts(cells@, n as nat, *cfg),
{
    let mut out: Vec<String> = Vec::new();
    let mut i: usize = 0;
    while i < n
        invariant
            i <= n,
            views(out@) == row_texts(cells@, n as nat, *cfg).take(i as int),
        decreases n - i,
    {
        let text = if i < cells.len() { render_single_line(&cells[i], cfg) } else { String::new() };
        let ghost before = views(out@);
        out.push(text);
        proof {
            let rt = row_texts(cells@, n as nat, *cfg);
            assert(text@ == rt[i as int]);
            assert(views(out@) =~= before.push(text@));
            assert(rt.take(i + 1) =~= rt.take(i as int).push(rt[i as int]));
        }
        i += 1;
    }
    proof {
        assert(row_texts(cells@, n as nat, *cfg).take(n as int) =~= row_texts(cells@, n as nat, *cfg));
    }
    out
}

fn char_count(s: &String) -> (r: usize)
    ensures
        r == s@.len(),
{
    chars_of(s.as_str()).len()
}

fn push_padded(out: &mut String, s: &String, width: usize, a: Alignment)
    ensures
        final(out)@ == old(out)@ + pad_cell(s@, width as nat, a),
{
    let len = char_count(s);
    let pad: usize = if width > len { width - len } else { 0 };
    match a {
        Alignment::Right => {
            push_repeat(out, ' ', pad);
            push_str(out, s.as_str());
        },
        Alignment::Center => {
            push_repeat(out, ' ', pad / 2);
            push_str(out, s.as_str());
            push_repeat(out, ' ', pad - pad / 2);
        },
        _ => {
            push_str(out, s.as_str());
            push_repeat(out, ' ', pad);
        },
    }
    proof {
        assert(final(out)@ =~= old(out)@ + pad_cell(s@, width as nat, a));
    }
}

fn alignment_of(alignments: &Vec<Alignment>, i: usize) -> (r: Alignment)
    ensures
        r == align_at(alignments@, i as int),
{
    if i < alignments.len() {
        alignments[i]
    } else {
        Alignment::Plain
    }
}

/// A table row's line.
fn render_line(cells: &Vec<String>, widths: &Vec<usize>, alignments: &Vec<Alignment>) -> (r: String)
    requires
        cells.len() == widths.len(),
    ensures
        r@ == row_line(views(cells@), widths@.map_values(|w: usize| w as nat), alignments@),
{
    let ghost ws = widths@.map_values(|w: usize| w as nat);
    let ghost parts = Seq::new(
        cells@.len(),
        |i: int| pad_cell(views(cells@)[i], ws[i], align_at(alignments@, i)),
    );
    let mut body = String::new();
    let mut i: usize = 0;
    proof {
        assert(parts.take(0) =~= Seq::<Seq<char>>::empty());
    }
    while i < cells.len()
        invariant
            i <= cells.len() == widths.len(),
            ws == widths@.map_values(|w: usize| w as nat),
            parts == Seq::new(cells@.len(), |i: int| pad_cell(views(cells@)[i], ws[i], align_at(alignments@, i))),
            body@ == join_sep(parts.take(i as int), " | "@),
        decreases cells.len() - i,
    {
        let ghost prev = parts.take(i as int);
        proof {
            assert(parts.take(i + 1) =~= prev.push(parts[i as int]));
            assert(parts.take(i + 1).drop_last() =~= prev);
        }
        if i > 0 {
            push_str(&mut body, " | ");
        }
        let a = alignment_of(alignments, i);
        push_padded(&mut body, &cells[i], widths[i], a);
        proof {
            assert(views(cells@)[i as int] == cells@[i as int]@);
            assert(parts[i as int] == pad_cell(cells@[i as int]@, widths@[i as int] as nat, a));
            if i == 0 {
                assert(body@ =~= join_sep(parts.take(i + 1), " | "@));
            } else {
                assert(body@ =~= join_sep(parts.take(i + 1), " | "@));
            }
        }
        i += 1;
    }
    proof {
        assert(parts.take(cells.len() as int) =~= parts);
    }
    let mut out = String::new();
    push_str(&mut out, "| ");
    push_str(&mut out, body.as_str());
    push_str(&mut out, " |");
    out
}

fn push_delimiter(out: &mut String, w: usize, a: Alignment)
    ensures
        final(out)@ == old(out)@ + delimiter_cell(w as nat, a),
{
    let less1: usize = if w >= 1 { w - 1 } else { 0 };
    let less2: usize = if w >= 2 { w - 2 } else { 0 };
    match a {
        Alignment::Plain => push_repeat(out, '-', w),
        Alignment::Left => {
            push_char(out, ':');
            push_repeat(out, '-', less1);
        },
        Alignment::Right => {
            push_repeat(out, '-', less1);
            push_char(out, ':');
        },
        Alignment::Center => {
            push_char(out, ':');
            push_repeat(out, '-', less2);
            push_char(out, ':');
        },
    }
    proof {
        assert(final(out)@ =~= old(out)@ + delimiter_cell(w as nat, a));
    }
}

/// The lines of a table.
pub fn print_table(
    alignments: &Vec<Alignment>,
    header: &Vec<Vec<Inline>>,
    rows: &Vec<Vec<Vec<Inline>>>,
    cfg: &FmtConfig,
) -> (r: Vec<String>)
    ensures
        views(r@) == table_lines(alignments@, header@, rows@, *cfg),
{
    let mut widest: usize = 0;
    let mut k: usize = 0;
    while k < rows.len()
        invariant
            k <= rows.len(),
            widest == widest_row(rows@, k as nat),
        decreases rows.len() - k,
    {
        if rows[k].len() > widest {
            widest = rows[k].len();
        }
        k += 1;
    }
    let mut n = header.len();
    if widest > n {
        n = widest;
    }
    if alignments.len() > n {
        n = alignments.len();
    }
    proof {
        assert(n == column_count(alignments@, header@, rows@));
    }
    if n == 0 {
        return Vec::new();
    }
    let h = render_row(header, n, cfg);
    let ghost hv = views(h@);
    let mut rs: Vec<Vec<String>> = Vec::new();
    let ghost rsv_full = Seq::new(rows@.len(), |r: int| row_texts(rows@[r]@, n as nat, *cfg));
    let mut r: usize = 0;
    while r < rows.len()
        invariant
            r <= rows.len(),
            rsv_full == Seq::new(rows@.len(), |r: int| row_texts(rows@[r]@, n as nat, *cfg)),
            rs@.len() == r,
            forall|j: int| 0 <= j < r ==> views(#[trigger] rs@[j]@) == rsv_full[j],
        decreases rows.len() - r,
    {
        let row = render_row(&rows[r], n, cfg);
        rs.push(row);
        r += 1;
    }
    let ghost rsv = rs@.map_values(|x: Vec<String>| views(x@));
    proof {
        assert(rsv =~= rsv_full);
        assert(views(h@).len() == n);
        assert forall|j: int| 0 <= j < rs@.len() implies #[trigger] rs@[j]@.len() == n by {
            assert(views(rs@[j]@).len() == rsv_full[j].len());
        }
    }
    let mut widths: Vec<usize> = Vec::new();
    let mut i: usize = 0;
    while i < n
        invariant
            i <= n,
            h@.len() == n,
            hv == views(h@),
            rsv == rs@.map_values(|x: Vec<String>| views(x@)),
            forall|j: int| 0 <= j < rs@.len() ==> #[trigger] rs@[j]@.len() == n,
            widths@.len() == i,
            forall|j: int| 0 <= j < i ==> #[trigger] widths@[j] as nat == column_width(hv, rsv, j),
        decreases n - i,
    {
        let mut w: usize = 3;
        let hl = char_count(&h[i]);
        if hl > w {
            w = hl;
        }
        proof {
            assert(hv[i as int] == h@[i as int]@);
            assert(w == max_nat(3, hv[i as int].len()));
        }
        let mut m: usize = 0;
        let mut q: usize = 0;
        while q < rs.len()
            invariant
                q <= rs.len(),
                i < n,
                rsv == rs@.map_values(|x: Vec<String>| views(x@)),
                forall|j: int| 0 <= j < rs@.len() ==> #[trigger] rs@[j]@.len() == n,
                m == column_max(rsv, i as int, q as nat),
            decreases rs.len() - q,
        {
            proof {
                assert(rs@[q as int]@.len() == n);
                assert(rsv[q as int][i as int] == rs@[q as int]@[i as int]@);
            }
            let cl = char_count(&rs[q][i]);
            if cl > m {
                m = cl;
            }
            q += 1;
        }
        if m > w {
            w = m;
        }
        widths.push(w);
        proof {
            assert(widths@[i as int] as nat == column_width(hv, rsv, i as int));
        }
        i += 1;
    }
    let ghost wv = widths@.map_values(|w: usize| w as nat);
    proof {
        assert(wv =~= Seq::new(n as nat, |i: int| column_width(hv, rsv, i)));
    }
    let mut out: Vec<String> = Vec::new();
    out.push(render_line(&h, &widths, alignments));
    let mut delim = String::new();
    let ghost dparts = Seq::new(n as nat, |i: int| delimiter_cell(wv[i], align_at(alignments@, i)));
    let mut j: usize = 0;
    proof {
        assert(dparts.take(0) =~= Seq::<Seq<char>>::empty());
    }
    while j < n
        invariant
            j <= n == widths@.len(),
            wv == widths@.map_values(|w: usize| w as nat),
            dparts == Seq::new(n as nat, |i: int| delimiter_cell(wv[i], align_at(alignments@, i))),
            delim@ == join_sep(dparts.take(j as int), " | "@),
        decreases n - j,
    {
        let ghost prev = dparts.take(j as int);
        proof {
            assert(dparts.take(j + 1) =~= prev.push(dparts[j as int]));
            assert(dparts.take(j + 1).drop_last() =~= prev);
        }
        if j > 0 {
            push_str(&mut delim, " | ");
        }
        let a = alignment_of(alignments, j);
        push_delimiter(&mut delim, widths[j], a);
        proof {
            assert(delim@ =~= join_sep(dparts.take(j + 1), " | "@));
        }
        j += 1;
    }
    proof {
        assert(dparts.take(n as int) =~= dparts);
    }
    let mut dline = String::new();
    push_str(&mut dline, "| ");
    push_str(&mut dline, delim.as_str());
    push_str(&mut dline, " |");
    out.push(dline);
    let ghost start = views(out@);
    let mut r2: usize = 0;
    while r2 < rs.len()
        invariant
            r2 <= rs.len(),
            widths@.len() == n,
            wv == widths@.map_values(|w: usize| w as nat),
            rsv == rs@.map_values(|x: Vec<String>| views(x@)),
            forall|j: int| 0 <= j < rs@.len() ==> #[trigger] rs@[j]@.len() == n,
            views(out@) == start + Seq::new(r2 as nat, |q: int| row_line(rsv[q], wv, alignments@)),
        decreases rs.len() - r2,
    {
        proof {
            assert(rs@[r2 as int]@.len() == widths@.len());
        }
        let line = render_line(&rs[r2], &widths, alignments);
        let ghost before = views(out@);
        out.push(line);
        proof {
            assert(rsv[r2 as int] == views(rs@[r2 as int]@));
            assert(views(out@) =~= before.push(line@));
            assert(Seq::new((r2 + 1) as nat, |q: int| row_line(rsv[q], wv, alignments@)) =~= Seq::new(
                r2 as nat,
                |q: int| row_line(rsv[q], wv, alignments@),
            ).push(row_line(rsv[r2 as int], wv, alignments@)));
            assert(views(out@) =~= start + Seq::new((r2 + 1) as nat, |q: int| row_line(rsv[q], wv, alignments@)));
        }
        r2 += 1;
    }
    proof {
        assert(views(out@) =~= table_lines(alignments@, header@, rows@, *cfg));
    }
    out
}

} // verus!
