//! Positioned queries over a Markdown document: its headings, its link and
//! image destinations, its inline code spans, each with the line it starts
//! on.
//!
//! `pulldown-cmark` parses the document into a stream of events with byte
//! ranges; everything after that (which events make a heading, what its
//! text is, which line a byte offset is on) is done and verified here.

use vstd::prelude::*;
use crate::chars::{chars_of, string_of, trim, trim_chars};
use crate::md_events::{
    event_views, markdown_events, parse_events, MdEvent, MdEventView, MdKind, MdKindView, MdTag,
    MdTagEnd, MdTagView,
};

verus! {

/// A value together with the 1-based line it starts on, relative to the
/// queried text.
#[derive(Clone, Debug, PartialEq, Eq)]
pub struct Located<T> {
    pub value: T,
    pub line: usize,
}

/// A Markdown heading.
#[derive(Clone, Debug, PartialEq, Eq)]
pub struct Heading {
    /// The heading level, 1 to 6.
    pub level: u8,
    /// The heading's text with inline markup flattened away.
    pub text: String,
    /// Written in setext form (`Title` underlined) rather than ATX (`# Title`).
    pub is_setext: bool,
}

pub struct HeadingView {
    pub level: u8,
    pub text: Seq<char>,
    pub is_setext: bool,
    pub line: nat,
}

pub open spec fn heading_views(v: Seq<Located<Heading>>) -> Seq<HeadingView> {
    v.map_values(
        |h: Located<Heading>|
            HeadingView {
                level: h.value.level,
                text: h.value.text@,
                is_setext: h.value.is_setext,
                line: h.line as nat,
            },
    )
}

pub open spec fn located_views(v: Seq<Located<String>>) -> Seq<(Seq<char>, nat)> {
    v.map_values(|l: Located<String>| (l.value@, l.line as nat))
}

/// How many of the first `k` bytes of `b` are newlines.
pub open spec fn newlines_before(b: Seq<u8>, k: int) -> nat
    decreases k,
{
    if k <= 0 {
        0
    } else {
        newlines_before(b, k - 1) + if b[k - 1] == 10 {
            1nat
        } else {
            0nat
        }
    }
}

/// The 1-based line of byte offset `offset` in text with bytes `b`: one
/// more than the number of newlines before it.
pub open spec fn line_at(b: Seq<u8>, offset: int) -> nat {
    1 + newlines_before(b, if offset < b.len() { offset } else { b.len() as int })
}

/// The byte offsets at which the lines of `b` start.
pub open spec fn line_starts(b: Seq<u8>) -> Seq<usize>
    decreases b.len(),
{
    if b.len() == 0 {
        seq![0usize]
    } else {
        line_starts(b.drop_last()) + if b.last() == 10 {
            seq![b.len() as usize]
        } else {
            Seq::empty()
        }
    }
}

/// How many entries of `s` are at most `o`.
pub open spec fn count_at_most(s: Seq<usize>, o: int) -> nat
    decreases s.len(),
{
    if s.len() == 0 {
        0
    } else {
        count_at_most(s.drop_last(), o) + if s.last() <= o {
            1nat
        } else {
            0nat
        }
    }
}

proof fn lemma_newlines_prefix(b: Seq<u8>, x: u8, k: int)
    requires
        k <= b.len(),
    ensures
        newlines_before(b.push(x), k) == newlines_before(b, k),
    decreases k,
{
    if k > 0 {
        lemma_newlines_prefix(b, x, k - 1);
    }
}

proof fn lemma_line_starts(b: Seq<u8>, o: int)
    requires
        b.len() <= usize::MAX,
        0 <= o,
    ensures
        line_starts(b).len() >= 1,
        line_starts(b)[0] == 0,
        forall|i: int, j: int| 0 <= i < j < line_starts(b).len() ==> line_starts(b)[i] < line_starts(b)[j],
        forall|i: int| 0 <= i < line_starts(b).len() ==> line_starts(b)[i] <= b.len(),
        count_at_most(line_starts(b), o) == line_at(b, o),
    decreases b.len(),
{
    if b.len() > 0 {
        let p = b.drop_last();
        let l = p.len() as int;
        lemma_line_starts(p, o);
        assert(b =~= p.push(b.last()));
        let s = line_starts(p);
        if o <= l {
            lemma_newlines_prefix(p, b.last(), o);
            assert(line_at(b, o) == 1 + newlines_before(b, o));
            assert(line_at(p, o) == 1 + newlines_before(p, o));
        } else {
            lemma_newlines_prefix(p, b.last(), l);
            assert(newlines_before(b, l + 1) == newlines_before(b, l) + if b[l] == 10 {
                1nat
            } else {
                0nat
            });
            assert(line_at(b, o) == 1 + newlines_before(b, l + 1));
            assert(line_at(p, o) == 1 + newlines_before(p, l));
        }
        if b.last() == 10 {
            let t = line_starts(b);
            assert(t == s + seq![b.len() as usize]);
            assert(t.drop_last() =~= s);
            assert(t.last() == b.len());
            assert forall|i: int, j: int| 0 <= i < j < t.len() implies t[i] < t[j] by {
                if j < t.len() - 1 {
                    assert(t[i] == s[i] && t[j] == s[j]);
                } else {
                    assert(t[i] == s[i]);
                }
            }
            assert forall|i: int| 0 <= i < t.len() implies t[i] <= b.len() by {
                if i < t.len() - 1 {
                    assert(t[i] == s[i]);
                }
            }
            assert(count_at_most(t, o) == count_at_most(s, o) + if t.last() <= o {
                1nat
            } else {
                0nat
            });
        } else {
            assert(line_starts(b) =~= s);
        }
    } else {
        let t = line_starts(b);
        assert(t == seq![0usize]);
        assert(t.drop_last() =~= Seq::<usize>::empty());
        assert(count_at_most(t, o) == count_at_most(t.drop_last(), o) + 1);
    }
}

proof fn lemma_count_split(s: Seq<usize>, o: int, k: int)
    requires
        0 <= k <= s.len(),
        forall|i: int, j: int| 0 <= i < j < s.len() ==> s[i] < s[j],
        forall|i: int| 0 <= i < k ==> s[i] <= o,
        forall|i: int| k <= i < s.len() ==> s[i] > o,
    ensures
        count_at_most(s, o) == k,
    decreases s.len(),
{
    if s.len() > 0 {
        if k == s.len() {
            lemma_count_split(s.drop_last(), o, k - 1);
        } else {
            lemma_count_split(s.drop_last(), o, k);
        }
    }
}

/// Byte offset to 1-based line number, for one text.
pub struct LineIndex {
    starts: Vec<usize>,
    bytes: Ghost<Seq<u8>>,
}

impl LineIndex {
    /// The text this index is for, as bytes.
    pub closed spec fn source(&self) -> Seq<u8> {
        self.bytes@
    }

    /// The index holds the start offset of every line of its text.
    pub closed spec fn wf(&self) -> bool {
        self.starts@ == line_starts(self.bytes@) && self.bytes@.len() <= usize::MAX
    }

    /// The line index of `src`.
    pub fn new(src: &str) -> (r: LineIndex)
        ensures
            r.wf(),
            r.source() == vstd::utf8::encode_utf8(src@),
    {
        let b = src.as_bytes();
        let mut starts: Vec<usize> = Vec::new();
        starts.push(0);
        let mut i: usize = 0;
        proof {
            assert(b@.take(0) =~= Seq::<u8>::empty());
        }
        while i < b.len()
            invariant
                i <= b.len(),
                b@ == vstd::utf8::encode_utf8(src@),
                starts@ == line_starts(b@.take(i as int)),
            decreases b.len() - i,
        {
            proof {
                assert(b@.take(i + 1).drop_last() =~= b@.take(i as int));
            }
            if b[i] == 10 {
                starts.push(i + 1);
            }
            i += 1;
        }
        proof {
            assert(b@.take(b.len() as int) =~= b@);
        }
        LineIndex { starts, bytes: Ghost(b@) }
    }

    /// The 1-based line containing byte `offset`: one more than the number
    /// of newlines before it. Correct for any offset, on a character
    /// boundary or not; offsets past the end count every newline.
    pub fn line(&self, offset: usize) -> (r: usize)
        requires
            self.wf(),
        ensures
            r == line_at(self.source(), offset as int),
    {
        proof {
            lemma_line_starts(self.bytes@, offset as int);
        }
        let s = &self.starts;
        let mut lo: usize = 0;
        let mut hi: usize = s.len();
        while lo < hi
            invariant
                lo <= hi <= s.len(),
                s@ == line_starts(self.bytes@),
                forall|i: int, j: int| 0 <= i < j < s@.len() ==> s@[i] < s@[j],
                forall|i: int| 0 <= i < lo ==> s@[i] <= offset,
                forall|i: int| hi <= i < s@.len() ==> s@[i] > offset,
            decreases hi - lo,
        {
            let mid = lo + (hi - lo) / 2;
            if s[mid] <= offset {
                lo = mid + 1;
            } else {
                hi = mid;
            }
        }
        proof {
            lemma_count_split(s@, offset as int, lo as int);
        }
        lo
    }
}

/// Whether the first byte of `b[start..end]` that is not ASCII whitespace
/// is `#` (an ATX heading), the range clipped to `b`.
pub open spec fn hash_first(b: Seq<u8>, start: int, end: int) -> bool {
    let e = if end < b.len() { end } else { b.len() as int };
    exists|k: int|
        start <= k < e && b[k] == 35 && forall|j: int| start <= j < k ==> #[trigger] ascii_space(b[j])
}

/// ASCII whitespace as `u8::is_ascii_whitespace` defines it.
pub open spec fn ascii_space(x: u8) -> bool {
    x == 32 || x == 9 || x == 10 || x == 12 || x == 13
}

/// The state of the heading scan after some events: the headings found so
/// far, and the heading being accumulated (level, start offset, text).
pub struct ScanView {
    pub found: Seq<HeadingView>,
    pub open: Option<(u8, nat, Seq<char>)>,
}

/// One step of the heading scan over `src`.
pub open spec fn heading_step(src: Seq<char>, s: ScanView, e: MdEventView) -> ScanView {
    let b = vstd::utf8::encode_utf8(src);
    match e.kind {
        MdKindView::Start(MdTagView::Heading(l)) => ScanView { found: s.found, open: Some((l, e.start, Seq::empty())) },
        MdKindView::End(MdTagEnd::Heading(_)) => match s.open {
            Some((l, st, t)) => ScanView {
                found: s.found.push(
                    HeadingView {
                        level: l,
                        text: trim(t),
                        is_setext: !hash_first(b, st as int, e.end as int),
                        line: line_at(b, st as int),
                    },
                ),
                open: None,
            },
            None => s,
        },
        MdKindView::Text(t) => match s.open {
            Some((l, st, acc)) => ScanView { found: s.found, open: Some((l, st, acc + t)) },
            None => s,
        },
        MdKindView::Code(t) => match s.open {
            Some((l, st, acc)) => ScanView { found: s.found, open: Some((l, st, acc + t)) },
            None => s,
        },
        MdKindView::SoftBreak | MdKindView::HardBreak => match s.open {
            Some((l, st, acc)) => ScanView { found: s.found, open: Some((l, st, acc.push(' '))) },
            None => s,
        },
        _ => s,
    }
}

/// The heading scan over the events `es`.
pub open spec fn heading_scan(src: Seq<char>, es: Seq<MdEventView>) -> ScanView
    decreases es.len(),
{
    if es.len() == 0 {
        ScanView { found: Seq::empty(), open: None }
    } else {
        heading_step(src, heading_scan(src, es.drop_last()), es.last())
    }
}

/// The headings of `src` given its parser events, in document order.
pub open spec fn headings_spec(src: Seq<char>, es: Seq<MdEventView>) -> Seq<HeadingView> {
    heading_scan(src, es).found
}

/// Whether `b[start..min(end, len)]` starts, after ASCII whitespace, with `#`.
fn starts_with_hash(b: &[u8], start: usize, end: usize) -> (r: bool)
    ensures
        r == hash_first(b@, start as int, end as int),
{
    let e = if end < b.len() { end } else { b.len() };
    let mut k = start;
    while k < e
        invariant
            start <= k,
            e <= b.len(),
            e == (if end < b@.len() { end as int } else { b@.len() as int }),
            forall|j: int| start <= j < k ==> #[trigger] ascii_space(b@[j]),
        decreases e - k,
    {
        let x = b[k];
        if !(x == 32 || x == 9 || x == 10 || x == 12 || x == 13) {
            proof {
                assert(!ascii_space(b@[k as int]));
                if x == 35 {
                    assert(start <= k < e && b@[k as int] == 35 && forall|j: int|
                        start <= j < k ==> #[trigger] ascii_space(b@[j]));
                } else if hash_first(b@, start as int, end as int) {
                    let m = choose|m: int|
                        start <= m < e && b@[m] == 35 && forall|j: int|
                            start <= j < m ==> #[trigger] ascii_space(b@[j]);
                    if m < k {
                        assert(ascii_space(b@[m]));
                    } else if m > k {
                        assert(ascii_space(b@[k as int]));
                    }
                }
            }
            return x == 35;
        }
        k += 1;
    }
    proof {
        if hash_first(b@, start as int, end as int) {
            let m = choose|m: int|
                start <= m < e && b@[m] == 35 && forall|j: int|
                    start <= j < m ==> #[trigger] ascii_space(b@[j]);
            assert(ascii_space(b@[m]));
        }
    }
    false
}

/// The headings of `src` given its parser events `events`, in document
/// order: each heading's level, its text (text and code spans
/// concatenated, line breaks as spaces, trimmed), whether it is a setext
/// heading, and its 1-based line.
pub fn headings_from_events(src: &str, events: &Vec<MdEvent>) -> (r: Vec<Located<Heading>>)
    ensures
        heading_views(r@) == headings_spec(src@, event_views(events@)),
{
    let b = src.as_bytes();
    let index = LineIndex::new(src);
    let ghost es = event_views(events@);
    let mut out: Vec<Located<Heading>> = Vec::new();
    let mut open = false;
    let mut level: u8 = 0;
    let mut start: usize = 0;
    let mut text: Vec<char> = Vec::new();
    let mut i: usize = 0;
    proof {
        assert(es.take(0) =~= Seq::<MdEventView>::empty());
    }
    while i < events.len()
        invariant
            i <= events.len(),
            es == event_views(events@),
            b@ == vstd::utf8::encode_utf8(src@),
            index.wf(),
            index.source() == b@,
            heading_scan(src@, es.take(i as int)).found == heading_views(out@),
            heading_scan(src@, es.take(i as int)).open == (if open {
                Some((level, start as nat, text@))
            } else {
                None
            }),
        decreases events.len() - i,
    {
        let e = &events[i];
        proof {
            assert(es.take(i + 1).drop_last() =~= es.take(i as int));
            assert(es.take(i + 1).last() == e@);
        }
        let ghost before = heading_views(out@);
        match &e.kind {
            MdKind::Start(MdTag::Heading(l)) => {
                open = true;
                level = *l;
                start = e.start;
                text = Vec::new();
            },
            MdKind::End(MdTagEnd::Heading(_)) => {
                if open {
                    let t = trim_chars(&text);
                    let h = Heading {
                        level,
                        text: string_of(&t),
                        is_setext: !starts_with_hash(b, start, e.end),
                    };
                    let line = index.line(start);
                    out.push(Located { value: h, line });
                    proof {
                        assert(heading_views(out@) =~= before.push(
                            HeadingView {
                                level,
                                text: trim(text@),
                                is_setext: !hash_first(b@, start as int, e.end as int),
                                line: line_at(b@, start as int),
                            },
                        ));
                    }
                    open = false;
                }
            },
            MdKind::Text(t) | MdKind::Code(t) => {
                if open {
                    let cs = chars_of(t.as_str());
                    let mut k: usize = 0;
                    let ghost t0 = text@;
                    while k < cs.len()
                        invariant
                            k <= cs.len(),
                            text@ == t0 + cs@.take(k as int),
                        decreases cs.len() - k,
                    {
                        text.push(cs[k]);
                        proof {
                            assert(cs@.take(k + 1) =~= cs@.take(k as int).push(cs@[k as int]));
                        }
                        k += 1;
                    }
                    proof {
                        assert(cs@.take(cs.len() as int) =~= cs@);
                    }
                }
            },
            MdKind::SoftBreak | MdKind::HardBreak => {
                if open {
                    text.push(' ');
                }
            },
            _ => {},
        }
        i += 1;
    }
    proof {
        assert(es.take(events.len() as int) =~= es);
    }
    out
}

/// All headings of `src`, ATX and setext, in document order, each with the
/// 1-based line it starts on. Heading-like text inside code blocks is not a
/// heading.
pub fn headings(src: &str) -> (r: Vec<Located<Heading>>)
    ensures
        heading_views(r@) == headings_spec(src@, markdown_events(src@)),
{
    let events = parse_events(src);
    headings_from_events(src, &events)
}

/// The destinations of the links and images (`links`) or the contents of
/// the inline code spans (`!links`) among the events `es`, with their lines.
pub open spec fn picked(src: Seq<char>, es: Seq<MdEventView>, links: bool) -> Seq<(Seq<char>, nat)>
    decreases es.len(),
{
    if es.len() == 0 {
        Seq::empty()
    } else {
        let prev = picked(src, es.drop_last(), links);
        let e = es.last();
        let line = line_at(vstd::utf8::encode_utf8(src), e.start as int);
        match e.kind {
            MdKindView::Start(MdTagView::Link(d)) => if links {
                prev.push((d, line))
            } else {
                prev
            },
            MdKindView::Start(MdTagView::Image(d)) => if links {
                prev.push((d, line))
            } else {
                prev
            },
            MdKindView::Code(c) => if links {
                prev
            } else {
                prev.push((c, line))
            },
            _ => prev,
        }
    }
}

/// The destinations of link starts (`links`) or the contents of inline code
/// spans (`!links`) among `events`, with their lines.
pub fn pick_from_events(src: &str, events: &Vec<MdEvent>, links: bool) -> (r: Vec<Located<String>>)
    ensures
        located_views(r@) == picked(src@, event_views(events@), links),
{
    let index = LineIndex::new(src);
    let ghost es = event_views(events@);
    let mut out: Vec<Located<String>> = Vec::new();
    let mut i: usize = 0;
    while i < events.len()
        invariant
            i <= events.len(),
            es == event_views(events@),
            index.wf(),
            index.source() == vstd::utf8::encode_utf8(src@),
            located_views(out@) == picked(src@, es.take(i as int), links),
        decreases events.len() - i,
    {
        let e = &events[i];
        proof {
            assert(es.take(i + 1).drop_last() =~= es.take(i as int));
            assert(es.take(i + 1).last() == e@);
        }
        let ghost before = located_views(out@);
        match &e.kind {
            MdKind::Start(MdTag::Link(d)) | MdKind::Start(MdTag::Image(d)) => {
                if links {
                    let line = index.line(e.start);
                    out.push(Located { value: d.clone(), line });
                    proof {
                        assert(located_views(out@) =~= before.push((d@, line as nat)));
                    }
                }
            },
            MdKind::Code(c) => {
                if !links {
                    let line = index.line(e.start);
                    out.push(Located { value: c.clone(), line });
                    proof {
                        assert(located_views(out@) =~= before.push((c@, line as nat)));
                    }
                }
            },
            _ => {},
        }
        i += 1;
    }
    proof {
        assert(es.take(events.len() as int) =~= es);
    }
    out
}

/// The destinations of every link and image in `src`, in document order,
/// with their lines. Destinations inside code blocks are not links.
pub fn link_destinations(src: &str) -> (r: Vec<Located<String>>)
    ensures
        located_views(r@) == picked(src@, markdown_events(src@), true),
{
    let events = parse_events(src);
    pick_from_events(src, &events, true)
}

/// The content of every inline code span in `src`, in document order, with
/// its line. Code blocks are not code spans.
pub fn inline_code_spans(src: &str) -> (r: Vec<Located<String>>)
    ensures
        located_views(r@) == picked(src@, markdown_events(src@), false),
{
    let events = parse_events(src);
    pick_from_events(src, &events, false)
}

} // verus!
