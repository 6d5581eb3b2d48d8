//! The eval-dataset schema: the shape of `evals/evals.jsonl`, and its
//! validation.
//!
//! A dataset is JSONL: one [`EvalCase`] per line, no enclosing envelope,
//! every line carrying its own `schema_version`. Blank lines are skipped.
//! Decoding one line's JSON into an [`EvalCase`] is `serde_json`'s work;
//! choosing the lines, numbering them, and deciding what a dataset's
//! decoded lines amount to is done and verified here.

use vstd::prelude::*;
use crate::chars::is_blank;
use crate::chars::{chars_of, push_char, push_str};
use crate::lines::{lemma_pieces_append, lines, lines_of, pieces, strip_cr};
use crate::rules::blank_str;
use crate::text::views;

verus! {

/// The eval-dataset schema version this library understands.
pub const SCHEMA_VERSION: u32 = 1;

/// One offline-checkable assertion about a case's expected outcome.
#[derive(Clone, Debug, PartialEq)]
pub enum Assertion {
    /// The output contains `value`.
    Contains { value: String },
    /// A file at `path` exists.
    FileExists { path: String },
    /// A file at `path` exists and contains `value`.
    FileContains { path: String, value: String },
    /// A shell command whose exit code alone decides pass (`0`) or fail.
    Command { command: String },
}

/// One test case of an eval dataset: a prompt and the assertions a harness
/// checks the response against.
#[derive(Clone, Debug, PartialEq)]
pub struct EvalCase {
    /// The schema version the line was written against.
    pub schema_version: u32,
    /// The prompt the skill under test should handle.
    pub prompt: String,
    /// The assertions to check; may be empty on one line.
    pub assertions: Vec<Assertion>,
}

/// Why a dataset was rejected.
#[derive(Clone, Debug)]
pub enum EvalError {
    /// Line `line` (1-based) is not a valid [`EvalCase`].
    Parse { line: usize, message: String },
    /// Line `line` declares a schema version this library does not know.
    UnsupportedSchemaVersion { line: usize, found: u32 },
    /// Line `line` has a `command` assertion whose command is empty.
    EmptyCommand { line: usize },
    /// The dataset has no cases.
    Empty,
}

/// The non-blank lines among the first `n` lines of `ls`, each with its
/// 1-based line number.
pub open spec fn numbered(ls: Seq<Seq<char>>, n: nat) -> Seq<(nat, Seq<char>)>
    decreases n,
{
    if n == 0 {
        seq![]
    } else {
        numbered(ls, (n - 1) as nat) + if is_blank(ls[n - 1]) {
            seq![]
        } else {
            seq![(n, ls[n - 1])]
        }
    }
}

/// The records of a JSONL text: its non-blank lines, numbered from 1.
pub open spec fn records_of(text: Seq<char>) -> Seq<(nat, Seq<char>)> {
    numbered(lines_of(text), lines_of(text).len())
}

pub open spec fn record_views(v: Seq<(usize, String)>) -> Seq<(nat, Seq<char>)> {
    v.map_values(|r: (usize, String)| (r.0 as nat, r.1@))
}

/// The records of JSONL `text`: every non-blank line with its 1-based line
/// number, in order. Each is one JSON-encoded [`EvalCase`].
pub fn jsonl_lines(text: &str) -> (r: Vec<(usize, String)>)
    ensures
        record_views(r@) == records_of(text@),
{
    let ls = lines(text);
    let ghost lv = views(ls@);
    let mut out: Vec<(usize, String)> = Vec::new();
    let mut i: usize = 0;
    while i < ls.len()
        invariant
            i <= ls.len(),
            lv == views(ls@),
            lv == lines_of(text@),
            record_views(out@) == numbered(lv, i as nat),
        decreases ls.len() - i,
    {
        let ghost before = record_views(out@);
        proof {
            assert(lv[i as int] == ls@[i as int]@);
        }
        if !blank_str(ls[i].as_str()) {
            out.push((i + 1, ls[i].clone()));
            proof {
                assert(record_views(out@) =~= before.push(((i + 1) as nat, lv[i as int])));
            }
        } else {
            proof {
                assert(record_views(out@) =~= before);
            }
        }
        i += 1;
    }
    out
}

/// The lines `ls`, each followed by a newline.
pub open spec fn terminated(ls: Seq<Seq<char>>) -> Seq<char>
    decreases ls.len(),
{
    if ls.len() == 0 {
        Seq::empty()
    } else {
        terminated(ls.drop_last()) + ls.last() + seq!['\n']
    }
}

/// A JSONL dataset from its records, each already JSON-encoded on one line:
/// every record followed by a newline.
pub fn to_jsonl(records: &Vec<String>) -> (r: String)
    ensures
        r@ == terminated(views(records@)),
{
    let mut out = String::new();
    let mut i: usize = 0;
    while i < records.len()
        invariant
            i <= records.len(),
            out@ == terminated(views(records@).take(i as int)),
        decreases records.len() - i,
    {
        push_str(&mut out, records[i].as_str());
        push_char(&mut out, '\n');
        proof {
            let vs = views(records@);
            assert(vs.take(i + 1).drop_last() =~= vs.take(i as int));
            assert(vs.take(i + 1).last() == records@[i as int]@);
        }
        i += 1;
    }
    proof {
        assert(views(records@).take(records.len() as int) =~= views(records@));
    }
    out
}

/// The text of records that hold no newline splits back into them.
proof fn lemma_pieces_terminated(ls: Seq<Seq<char>>)
    requires
        forall|i: int, j: int| 0 <= i < ls.len() && 0 <= j < ls[i].len() ==> ls[i][j] != '\n',
    ensures
        pieces(terminated(ls)) == ls.push(Seq::<char>::empty()),
    decreases ls.len(),
{
    if ls.len() == 0 {
        assert(pieces(Seq::<char>::empty()) =~= seq![Seq::<char>::empty()]);
    } else {
        let pre = ls.drop_last();
        let t = terminated(pre);
        lemma_pieces_terminated(pre);
        lemma_pieces_append(t, ls.last());
        let p = pieces(t + ls.last());
        assert(Seq::<char>::empty() + ls.last() =~= ls.last());
        assert(p =~= pre.push(ls.last()));
        let full = t + ls.last() + seq!['\n'];
        assert(full.drop_last() =~= t + ls.last());
        assert(pre.push(ls.last()) =~= ls);
    }
}

proof fn lemma_numbered_all(ls: Seq<Seq<char>>, n: nat)
    requires
        n <= ls.len(),
        forall|i: int| 0 <= i < ls.len() ==> !is_blank(#[trigger] ls[i]),
    ensures
        numbered(ls, n) == Seq::new(n, |i: int| ((i + 1) as nat, ls[i])),
    decreases n,
{
    if n > 0 {
        lemma_numbered_all(ls, (n - 1) as nat);
        assert(!is_blank(ls[n - 1]));
        assert(numbered(ls, n) =~= Seq::new(n, |i: int| ((i + 1) as nat, ls[i])));
    } else {
        assert(numbered(ls, n) =~= Seq::new(n, |i: int| ((i + 1) as nat, ls[i])));
    }
}

/// Writing records with [`to_jsonl`] and reading the text back with
/// [`jsonl_lines`] gives the same records, numbered from 1, as long as no
/// record holds a newline, ends in a carriage return, or is blank (a JSON
/// encoding is none of these).
pub proof fn jsonl_round_trip(ls: Seq<Seq<char>>)
    requires
        forall|i: int, j: int| 0 <= i < ls.len() && 0 <= j < ls[i].len() ==> ls[i][j] != '\n',
        forall|i: int| 0 <= i < ls.len() ==> strip_cr(#[trigger] ls[i]) == ls[i],
        forall|i: int| 0 <= i < ls.len() ==> !is_blank(#[trigger] ls[i]),
    ensures
        records_of(terminated(ls)) == Seq::new(ls.len(), |i: int| ((i + 1) as nat, ls[i])),
{
    let text = terminated(ls);
    lemma_pieces_terminated(ls);
    let p = pieces(text);
    assert(p.drop_last() =~= ls);
    assert(p.drop_last().map_values(|l: Seq<char>| strip_cr(l)) =~= ls);
    assert(lines_of(text) == ls);
    lemma_numbered_all(ls, ls.len());
}

/// The index of the first record whose line did not decode.
pub open spec fn first_failure(rs: Seq<(usize, Result<EvalCase, String>)>, from: int) -> Option<int>
    decreases rs.len() - from,
{
    if from < 0 || from >= rs.len() {
        None
    } else if rs[from].1 is Err {
        Some(from)
    } else {
        first_failure(rs, from + 1)
    }
}

/// The index of the first decoded case whose schema version is not
/// [`SCHEMA_VERSION`].
pub open spec fn first_unsupported(rs: Seq<(usize, Result<EvalCase, String>)>, from: int) -> Option<int>
    decreases rs.len() - from,
{
    if from < 0 || from >= rs.len() {
        None
    } else if (match rs[from].1 {
        Ok(c) => c.schema_version != SCHEMA_VERSION,
        Err(_) => false,
    }) {
        Some(from)
    } else {
        first_unsupported(rs, from + 1)
    }
}

/// Whether `a` is a `command` assertion with an empty command.
pub open spec fn empty_command(a: Assertion) -> bool {
    match a {
        Assertion::Command { command } => command@.len() == 0,
        _ => false,
    }
}

/// Whether `c` has a `command` assertion with an empty command.
pub open spec fn has_empty_command(c: EvalCase) -> bool {
    exists|j: int| 0 <= j < c.assertions@.len() && empty_command(#[trigger] c.assertions@[j])
}

/// The index of the first decoded case that has a `command` assertion with
/// an empty command.
pub open spec fn first_empty_command(rs: Seq<(usize, Result<EvalCase, String>)>, from: int) -> Option<int>
    decreases rs.len() - from,
{
    if from < 0 || from >= rs.len() {
        None
    } else if (match rs[from].1 {
        Ok(c) => has_empty_command(c),
        Err(_) => false,
    }) {
        Some(from)
    } else {
        first_empty_command(rs, from + 1)
    }
}

fn empty_command_in(c: &EvalCase) -> (r: bool)
    ensures
        r == has_empty_command(*c),
{
    let mut j: usize = 0;
    while j < c.assertions.len()
        invariant
            j <= c.assertions.len(),
            forall|k: int| 0 <= k < j ==> !empty_command(#[trigger] c.assertions@[k]),
        decreases c.assertions.len() - j,
    {
        match &c.assertions[j] {
            Assertion::Command { command } => {
                if chars_of(command.as_str()).len() == 0 {
                    return true;
                }
            },
            _ => {},
        }
        j += 1;
    }
    false
}

pub open spec fn case_of(r: Result<EvalCase, String>) -> EvalCase {
    match r {
        Ok(c) => c,
        Err(_) => arbitrary(),
    }
}

/// The error for the record at `k`, which failed to decode with `message`.
pub open spec fn parse_failure_is(e: EvalError, rs: Seq<(usize, Result<EvalCase, String>)>, k: int) -> bool {
    match (e, rs[k].1) {
        (EvalError::Parse { line, message }, Err(m)) => line == rs[k].0 && message@ == m@,
        _ => false,
    }
}

fn first_failed(rs: &Vec<(usize, Result<EvalCase, String>)>) -> (r: Option<usize>)
    ensures
        match r {
            Some(k) => first_failure(rs@, 0) == Some(k as int),
            None => first_failure(rs@, 0).is_none(),
        },
{
    let mut i: usize = 0;
    while i < rs.len()
        invariant
            i <= rs.len(),
            first_failure(rs@, 0) == first_failure(rs@, i as int),
        decreases rs.len() - i,
    {
        if rs[i].1.is_err() {
            return Some(i);
        }
        i += 1;
    }
    None
}

/// The cases of a dataset, given the decoding of each of its records (see
/// [`jsonl_lines`]) with the record's line number: all of them in order if
/// every record decoded, else [`EvalError::Parse`] for the first that did
/// not. Schema versions and emptiness are [`validate`]'s concern.
pub fn parse_jsonl(records: Vec<(usize, Result<EvalCase, String>)>) -> (r: Result<Vec<EvalCase>, EvalError>)
    ensures
        match r {
            Ok(cases) => first_failure(records@, 0).is_none() && cases@ == records@.map_values(
                |x: (usize, Result<EvalCase, String>)| case_of(x.1),
            ),
            Err(e) => first_failure(records@, 0) matches Some(k) && parse_failure_is(e, records@, k),
        },
{
    if let Some(k) = first_failed(&records) {
        proof {
            lemma_first_failure(records@, 0);
        }
        let line = records[k].0;
        return match &records[k].1 {
            Err(m) => Err(EvalError::Parse { line, message: m.clone() }),
            Ok(_) => Err(EvalError::Empty),
        };
    }
    let ghost rs = records@;
    let mut cases: Vec<EvalCase> = Vec::new();
    let mut rest = records;
    let ghost mut done: int = 0;
    proof {
        assert(rest@ =~= rs.skip(0));
        assert(rs.take(0).map_values(|x: (usize, Result<EvalCase, String>)| case_of(x.1)) =~= Seq::<EvalCase>::empty());
        lemma_first_failure(rs, 0);
    }
    while rest.len() > 0
        invariant
            0 <= done <= rs.len(),
            rest.len() + done == rs.len(),
            rest@ == rs.skip(done),
            first_failure(rs, 0).is_none(),
            forall|j: int| 0 <= j < rs.len() ==> #[trigger] rs[j].1 is Ok,
            cases@ == rs.take(done).map_values(|x: (usize, Result<EvalCase, String>)| case_of(x.1)),
        decreases rest.len(),
    {
        let ghost old_rest = rest@;
        let (_, decoded) = rest.remove(0);
        proof {
            assert(old_rest[0] == rs[done]);
            assert(rest@ =~= rs.skip(done + 1));
        }
        match decoded {
            Ok(c) => {
                cases.push(c);
                proof {
                    assert(rs.take(done + 1).map_values(|x: (usize, Result<EvalCase, String>)| case_of(x.1))
                        =~= rs.take(done).map_values(|x: (usize, Result<EvalCase, String>)| case_of(x.1)).push(
                        case_of(rs[done].1),
                    ));
                }
            },
            Err(_) => {
                proof {
                    assert(rs[done].1 is Ok);
                }
            },
        }
        proof {
            done = done + 1;
        }
    }
    proof {
        assert(rs.take(done) =~= rs);
    }
    Ok(cases)
}

proof fn lemma_first_failure(rs: Seq<(usize, Result<EvalCase, String>)>, from: int)
    requires
        0 <= from,
    ensures
        match first_failure(rs, from) {
            Some(k) => from <= k < rs.len() && rs[k].1 is Err,
            None => forall|j: int| from <= j < rs.len() ==> #[trigger] rs[j].1 is Ok,
        },
    decreases rs.len() - from,
{
    if from < rs.len() && rs[from].1 is Ok {
        lemma_first_failure(rs, from + 1);
    }
}

/// `k` newlines: `k` blank lines appended to a text that ends in a newline.
pub open spec fn newlines(k: nat) -> Seq<char> {
    Seq::new(k, |i: int| '\n')
}

proof fn lemma_pieces_newlines(t: Seq<char>, k: nat)
    ensures
        pieces(t + newlines(k)) == pieces(t) + Seq::new(k, |i: int| Seq::<char>::empty()),
    decreases k,
{
    if k == 0 {
        assert(t + newlines(0) =~= t);
        assert(pieces(t) + Seq::new(0, |i: int| Seq::<char>::empty()) =~= pieces(t));
    } else {
        lemma_pieces_newlines(t, (k - 1) as nat);
        let s = t + newlines(k);
        assert(s.drop_last() =~= t + newlines((k - 1) as nat));
        assert(s.last() == '\n');
        assert(pieces(t) + Seq::new(k, |i: int| Seq::<char>::empty()) =~= (pieces(t) + Seq::new(
            (k - 1) as nat,
            |i: int| Seq::<char>::empty(),
        )).push(Seq::<char>::empty()));
    }
}

proof fn lemma_numbered_same_prefix(a: Seq<Seq<char>>, b: Seq<Seq<char>>, n: nat)
    requires
        n <= a.len(),
        n <= b.len(),
        forall|i: int| 0 <= i < n ==> a[i] == b[i],
    ensures
        numbered(a, n) == numbered(b, n),
    decreases n,
{
    if n > 0 {
        lemma_numbered_same_prefix(a, b, (n - 1) as nat);
        assert(a[n - 1] == b[n - 1]);
    }
}

proof fn lemma_numbered_blank_tail(ls: Seq<Seq<char>>, k: nat, n: nat)
    requires
        ls.len() <= n <= ls.len() + k,
    ensures
        numbered(ls + Seq::new(k, |i: int| Seq::<char>::empty()), n) == numbered(ls, ls.len()),
    decreases n,
{
    let all = ls + Seq::new(k, |i: int| Seq::<char>::empty());
    if n == ls.len() {
        lemma_numbered_same_prefix(all, ls, n);
    } else {
        lemma_numbered_blank_tail(ls, k, (n - 1) as nat);
        assert(all[n - 1] == Seq::<char>::empty());
        assert(is_blank(all[n - 1]));
        assert(numbered(all, n) =~= numbered(all, (n - 1) as nat));
    }
}

/// Reading a written dataset back gives its cases: when each case is
/// encoded on one line (no newline, no trailing carriage return, not blank)
/// and decoding each line gives its case back, the records of the text
/// [`to_jsonl`] writes, with any number `k` of blank lines appended, are
/// those lines numbered from 1 (the blank lines contribute nothing), and
/// [`parse_jsonl`] over their decodings yields exactly the cases, in order.
pub proof fn parse_jsonl_undoes_to_jsonl(
    ls: Seq<Seq<char>>,
    k: nat,
    decoded: Seq<(usize, Result<EvalCase, String>)>,
    cases: Seq<EvalCase>,
)
    requires
        forall|i: int, j: int| 0 <= i < ls.len() && 0 <= j < ls[i].len() ==> ls[i][j] != '\n',
        forall|i: int| 0 <= i < ls.len() ==> strip_cr(#[trigger] ls[i]) == ls[i],
        forall|i: int| 0 <= i < ls.len() ==> !is_blank(#[trigger] ls[i]),
        cases.len() == ls.len(),
        decoded.len() == ls.len(),
        forall|i: int|
            0 <= i < decoded.len() ==> (#[trigger] decoded[i]).0 == i + 1 && decoded[i].1 == Ok::<
                EvalCase,
                String,
            >(cases[i]),
    ensures
        records_of(terminated(ls) + newlines(k)) == Seq::new(ls.len(), |i: int| ((i + 1) as nat, ls[i])),
        records_of(terminated(ls) + newlines(k)) == decoded.map_values(
            |x: (usize, Result<EvalCase, String>)| (x.0 as nat, ls[x.0 - 1]),
        ),
        first_failure(decoded, 0).is_none(),
        decoded.map_values(|x: (usize, Result<EvalCase, String>)| case_of(x.1)) == cases,
{
    let t = terminated(ls);
    let text = t + newlines(k);
    let blanks = Seq::new(k, |i: int| Seq::<char>::empty());
    lemma_pieces_terminated(ls);
    lemma_pieces_newlines(t, k);
    let p = pieces(text);
    assert(p =~= ls + seq![Seq::<char>::empty()] + blanks);
    assert(p.last() == Seq::<char>::empty()) by {
        if k > 0 {
            assert(p.last() == blanks[k - 1]);
        }
    }
    let lv = lines_of(text);
    assert(lv =~= ls + blanks) by {
        assert(p.drop_last() =~= ls + blanks);
        assert forall|i: int| 0 <= i < ls.len() + k implies #[trigger] lv[i] == (ls + blanks)[i] by {
            if i < ls.len() {
                assert(p.drop_last()[i] == ls[i]);
            } else {
                assert(p.drop_last()[i] == Seq::<char>::empty());
                assert(strip_cr(Seq::<char>::empty()) == Seq::<char>::empty());
            }
        }
    }
    lemma_numbered_blank_tail(ls, k, ls.len() + k);
    lemma_numbered_all(ls, ls.len());
    let r = Seq::new(ls.len(), |i: int| ((i + 1) as nat, ls[i]));
    assert(records_of(text) == r);
    assert(decoded.map_values(|x: (usize, Result<EvalCase, String>)| (x.0 as nat, ls[x.0 - 1])) =~= r) by {
        assert forall|i: int| 0 <= i < ls.len() implies decoded.map_values(
            |x: (usize, Result<EvalCase, String>)| (x.0 as nat, ls[x.0 - 1]),
        )[i] == r[i] by {
            assert(decoded[i].0 == i + 1);
        }
    }
    lemma_first_failure(decoded, 0);
    if let Some(j) = first_failure(decoded, 0) {
        assert(decoded[j].1 == Ok::<EvalCase, String>(cases[j]));
    }
    let m = decoded.map_values(|x: (usize, Result<EvalCase, String>)| case_of(x.1));
    assert forall|i: int| 0 <= i < cases.len() implies m[i] == cases[i] by {
        assert(decoded[i].1 == Ok::<EvalCase, String>(cases[i]));
    }
    assert(m =~= cases);
}

/// Validates a dataset, given the decoding of each of its records with the
/// record's line number. In order: the first record that did not decode is
/// [`EvalError::Parse`]; else the first case with a schema version other
/// than [`SCHEMA_VERSION`] is [`EvalError::UnsupportedSchemaVersion`]; else
/// the first case with a `command` assertion whose command is empty is
/// [`EvalError::EmptyCommand`]; else a dataset without records is
/// [`EvalError::Empty`]; else it is valid.
pub fn validate(records: Vec<(usize, Result<EvalCase, String>)>) -> (r: Result<(), EvalError>)
    ensures
        match r {
            Ok(()) => first_failure(records@, 0).is_none() && first_unsupported(records@, 0).is_none()
                && first_empty_command(records@, 0).is_none() && records@.len() > 0,
            Err(e) => match first_failure(records@, 0) {
                Some(k) => parse_failure_is(e, records@, k),
                None => match first_unsupported(records@, 0) {
                    Some(k) => match e {
                    EvalError::UnsupportedSchemaVersion { line, found } => line == records@[k].0 && found
                        == case_of(records@[k].1).schema_version,
                    _ => false,
                },
                    None => match first_empty_command(records@, 0) {
                        Some(k) => e == EvalError::EmptyCommand { line: records@[k].0 },
                        None => records@.len() == 0 && e is Empty,
                    },
                },
            },
        },
{
    if let Some(k) = first_failed(&records) {
        proof {
            lemma_first_failure(records@, 0);
        }
        let line = records[k].0;
        return match &records[k].1 {
            Err(m) => Err(EvalError::Parse { line, message: m.clone() }),
            Ok(_) => Err(EvalError::Empty),
        };
    }
    let mut i: usize = 0;
    while i < records.len()
        invariant
            i <= records.len(),
            first_failure(records@, 0).is_none(),
            first_unsupported(records@, 0) == first_unsupported(records@, i as int),
        decreases records.len() - i,
    {
        match &records[i].1 {
            Ok(c) => {
                if c.schema_version != SCHEMA_VERSION {
                    return Err(EvalError::UnsupportedSchemaVersion { line: records[i].0, found: c.schema_version });
                }
            },
            Err(_) => {},
        }
        i += 1;
    }
    let mut i: usize = 0;
    while i < records.len()
        invariant
            i <= records.len(),
            first_failure(records@, 0).is_none(),
            first_unsupported(records@, 0).is_none(),
            first_empty_command(records@, 0) == first_empty_command(records@, i as int),
        decreases records.len() - i,
    {
        match &records[i].1 {
            Ok(c) => {
                if empty_command_in(c) {
                    return Err(EvalError::EmptyCommand { line: records[i].0 });
                }
            },
            Err(_) => {},
        }
        i += 1;
    }
    if records.len() == 0 {
        return Err(EvalError::Empty);
    }
    Ok(())
}

} // verus!
