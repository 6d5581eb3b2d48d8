//! Parsing a SKILL.md: `---`-delimited YAML frontmatter followed by a
//! Markdown body.
//!
//! The text is split at `\n` with a trailing `\r` dropped from each line,
//! so LF and CRLF files parse alike. The first line must be `---`; the next
//! `---` line closes the frontmatter. `serde_yaml` parses the lines between;
//! the frontmatter must be a mapping with string `name` and `description`
//! and, if present, a string `license`. Every other key is kept as an extra
//! field, the extra fields in key order. Each field is located on the first
//! frontmatter line that starts with the key and a colon.

use vstd::prelude::*;
use crate::chars::{chars_of, push_char, starts_with};
use crate::diagnostic::{owned, AdeptError, ExtraField, Frontmatter, Skill};
use crate::lines::{lemma_pieces_len, pieces, strip_cr};
use crate::order::{chars_before, text_lt};
use crate::sorting::{isort, lemma_insert_at};
use crate::text::{char_views, join};

verus! {

/// A YAML value, as far as a frontmatter field needs to know it.
pub enum YamlValue {
    /// A string scalar.
    Str(String),
    /// Anything else: a number, a boolean, null, a sequence, a mapping.
    Other,
}

/// One key and value of a YAML mapping, in document order. `key` is `None`
/// when the key is not a string.
pub struct YamlEntry {
    pub key: Option<String>,
    pub value: YamlValue,
}

/// A parsed YAML document: a mapping, or something else.
pub enum YamlDoc {
    Mapping(Vec<YamlEntry>),
    NotMapping,
}

pub struct EntryView {
    pub key: Option<Seq<char>>,
    pub value: Option<Seq<char>>,
}

pub open spec fn entry_view(e: YamlEntry) -> EntryView {
    EntryView {
        key: match e.key {
            Some(k) => Some(k@),
            None => None,
        },
        value: match e.value {
            YamlValue::Str(s) => Some(s@),
            YamlValue::Other => None,
        },
    }
}

/// The view of a YAML parse: the entries of a mapping, `None` for a
/// document that is not a mapping, or the parser's error message.
pub open spec fn yaml_view(r: Result<YamlDoc, String>) -> Result<Option<Seq<EntryView>>, Seq<char>> {
    match r {
        Ok(YamlDoc::Mapping(es)) => Ok(Some(es@.map_values(|e: YamlEntry| entry_view(e)))),
        Ok(YamlDoc::NotMapping) => Ok(None),
        Err(m) => Err(m@),
    }
}

/// What `serde_yaml` makes of `text` as a `serde_yaml::Value`.
pub uninterp spec fn yaml_parse(text: Seq<char>) -> Result<Option<Seq<EntryView>>, Seq<char>>;

/// Calls `serde_yaml::from_str::<serde_yaml::Value>` and records a mapping's
/// entries in document order (string keys and string values kept, others
/// marked), a non-mapping document, or the error's message. The result is
/// named, not described.
#[verifier::external_body]
fn load_yaml(text: &str) -> (r: Result<YamlDoc, String>)
    ensures
        yaml_view(r) == yaml_parse(text@),
{
    match serde_yaml::from_str::<serde_yaml::Value>(text) {
        Ok(serde_yaml::Value::Mapping(m)) => Ok(YamlDoc::Mapping(m.into_iter().map(|(k, v)| YamlEntry {
            key: k.as_str().map(str::to_string),
            value: match v {
                serde_yaml::Value::String(s) => YamlValue::Str(s),
                _ => YamlValue::Other,
            },
        }).collect())),
        Ok(_) => Ok(YamlDoc::NotMapping),
        Err(e) => Err(e.to_string()),
    }
}

/// The lines of `src` as the parser sees them: split at `\n`, a trailing
/// `\r` dropped from each.
pub open spec fn src_lines(src: Seq<char>) -> Seq<Seq<char>> {
    pieces(src).map_values(|l: Seq<char>| strip_cr(l))
}

/// The index of the first line after the first that is `---`, at or after
/// `from`.
pub open spec fn closing_from(ls: Seq<Seq<char>>, from: int) -> Option<int>
    decreases ls.len() - from,
{
    if from < 1 || from >= ls.len() {
        None
    } else if ls[from] == "---"@ {
        Some(from)
    } else {
        closing_from(ls, from + 1)
    }
}

/// The 1-based line of field `key`: the first frontmatter line (between
/// line 0 and `close`) that starts with `key:`, else line 1.
pub open spec fn key_line_from(ls: Seq<Seq<char>>, close: int, key: Seq<char>, from: int) -> nat
    decreases close - from,
{
    if from < 1 || from >= close || from >= ls.len() {
        1
    } else if starts_with(ls[from], key.push(':')) {
        (from + 1) as nat
    } else {
        key_line_from(ls, close, key, from + 1)
    }
}

/// The value of the first entry with string key `key`: `Some(Some(s))` for
/// a string, `Some(None)` for another value, `None` when absent.
pub open spec fn lookup(es: Seq<EntryView>, key: Seq<char>) -> Option<Option<Seq<char>>>
    decreases es.len(),
{
    if es.len() == 0 {
        None
    } else if es[0].key == Some(key) {
        Some(es[0].value)
    } else {
        lookup(es.drop_first(), key)
    }
}

/// A failure to parse, by kind.
pub enum ParseFailure {
    MissingFrontmatter,
    UnterminatedFrontmatter,
    InvalidYaml(Seq<char>),
    NotMapping,
    MissingField(Seq<char>),
    InvalidFieldType(Seq<char>),
}

pub struct ExtraView {
    pub key: Seq<char>,
    pub value: Option<Seq<char>>,
    pub line: nat,
}

/// The mathematical content of a parsed skill.
pub struct ParsedView {
    pub name: Seq<char>,
    pub name_line: nat,
    pub description: Seq<char>,
    pub description_line: nat,
    pub license: Option<Seq<char>>,
    pub license_line: Option<nat>,
    pub extra: Seq<ExtraView>,
    pub body: Seq<char>,
    pub body_line_offset: nat,
}

pub open spec fn well_known(key: Seq<char>) -> bool {
    key == "name"@ || key == "description"@ || key == "license"@
}

/// The extra fields among the first `n` entries of `es`: string keys other
/// than `name`, `description` and `license`, in order.
pub open spec fn extras(es: Seq<EntryView>, ls: Seq<Seq<char>>, close: int, n: nat) -> Seq<ExtraView>
    decreases n,
{
    if n == 0 {
        seq![]
    } else {
        let e = es[n - 1];
        extras(es, ls, close, (n - 1) as nat) + match e.key {
            Some(k) => if well_known(k) {
                seq![]
            } else {
                seq![ExtraView { key: k, value: e.value, line: key_line_from(ls, close, k, 1) }]
            },
            None => seq![],
        }
    }
}

/// What parsing SKILL.md text `src` gives.
pub open spec fn parse_spec(src: Seq<char>) -> Result<ParsedView, ParseFailure> {
    let ls = src_lines(src);
    if ls[0] != "---"@ {
        Err(ParseFailure::MissingFrontmatter)
    } else {
        match closing_from(ls, 1) {
            None => Err(ParseFailure::UnterminatedFrontmatter),
            Some(close) => match yaml_parse(join(ls.subrange(1, close), '\n')) {
                Err(m) => Err(ParseFailure::InvalidYaml(m)),
                Ok(None) => Err(ParseFailure::NotMapping),
                Ok(Some(es)) => match (lookup(es, "name"@), lookup(es, "description"@), lookup(es, "license"@)) {
                    (None, _, _) => Err(ParseFailure::MissingField("name"@)),
                    (Some(None), _, _) => Err(ParseFailure::InvalidFieldType("name"@)),
                    (_, None, _) => Err(ParseFailure::MissingField("description"@)),
                    (_, Some(None), _) => Err(ParseFailure::InvalidFieldType("description"@)),
                    (_, _, Some(None)) => Err(ParseFailure::InvalidFieldType("license"@)),
                    (Some(Some(name)), Some(Some(description)), lic) => Ok(ParsedView {
                        name,
                        name_line: key_line_from(ls, close, "name"@, 1),
                        description,
                        description_line: key_line_from(ls, close, "description"@, 1),
                        license: match lic {
                            Some(Some(l)) => Some(l),
                            _ => None,
                        },
                        license_line: match lic {
                            Some(Some(_)) => Some(key_line_from(ls, close, "license"@, 1)),
                            _ => None,
                        },
                        extra: isort(extras(es, ls, close, es.len()), extra_lt()),
                        body: join(ls.subrange(close + 1, ls.len() as int), '\n'),
                        body_line_offset: if close + 2 <= usize::MAX {
                            (close + 2) as nat
                        } else {
                            usize::MAX as nat
                        },
                    }),
                },
            },
        }
    }
}

pub open spec fn extra_view(x: ExtraField) -> ExtraView {
    ExtraView {
        key: x.key@,
        value: match x.value {
            Some(s) => Some(s@),
            None => None,
        },
        line: x.line as nat,
    }
}

pub open spec fn extra_views(v: Seq<ExtraField>) -> Seq<ExtraView> {
    v.map_values(|x: ExtraField| extra_view(x))
}

/// Extra fields are kept in key order (code point by code point), as a
/// sorted map holds them.
pub open spec fn extra_lt() -> spec_fn(ExtraView, ExtraView) -> bool {
    |a: ExtraView, b: ExtraView| text_lt(a.key, b.key)
}

fn key_before(k: &Vec<char>, y: &ExtraField) -> (r: bool)
    ensures
        r == text_lt(k@, y.key@),
{
    chars_before(k, &chars_of(y.key.as_str()))
}

fn sort_extras(v: Vec<ExtraField>) -> (r: Vec<ExtraField>)
    ensures
        extra_views(r@) == isort(extra_views(v@), extra_lt()),
{
    let ghost orig = extra_views(v@);
    let n = v.len();
    let mut rest = v;
    let mut out: Vec<ExtraField> = Vec::new();
    let mut i: usize = 0;
    proof {
        assert(orig.take(0) =~= Seq::<ExtraView>::empty());
        assert(extra_views(rest@) =~= orig.skip(0));
    }
    while rest.len() > 0
        invariant
            i <= n,
            rest.len() + i == n,
            orig.len() == n,
            extra_views(rest@) == orig.skip(i as int),
            extra_views(out@) == isort(orig.take(i as int), extra_lt()),
        decreases rest.len(),
    {
        let ghost before_rest = extra_views(rest@);
        let ghost old_rest = rest@;
        let x = rest.remove(0);
        proof {
            assert(before_rest[0] == orig[i as int]);
            assert(rest@ =~= old_rest.subrange(1, old_rest.len() as int));
            assert(extra_views(rest@) =~= before_rest.subrange(1, before_rest.len() as int));
            assert(before_rest.subrange(1, before_rest.len() as int) =~= orig.skip(i + 1));
        }
        let xk = chars_of(x.key.as_str());
        let ghost sorted = extra_views(out@);
        let ghost xv = extra_view(x);
        proof {
            assert(xv == orig[i as int]);
        }
        proof {
            assert(xv.key == xk@);
        }
        let mut p = out.len();
        while p > 0 && key_before(&xk, &out[p - 1])
            invariant
                p <= out.len(),
                sorted == extra_views(out@),
                xk@ == x.key@,
                xv.key == xk@,
                forall|k: int| p <= k < sorted.len() ==> extra_lt()(xv, #[trigger] sorted[k]),
            decreases p,
        {
            proof {
                assert(sorted[p - 1].key == out@[p - 1].key@);
            }
            p -= 1;
        }
        proof {
            if p > 0 {
                assert(sorted[p - 1].key == out@[p - 1].key@);
            }
            lemma_insert_at(sorted, xv, extra_lt(), p as int);
            let t = orig.take(i + 1);
            assert(t.drop_last() =~= orig.take(i as int));
            assert(t.last() == xv);
        }
        out.insert(p, x);
        proof {
            assert(extra_views(out@) =~= sorted.insert(p as int, xv));
        }
        i += 1;
    }
    proof {
        assert(orig.take(n as int) =~= orig);
    }
    out
}

/// The parsed content of `skill`.
pub open spec fn parsed_view(skill: Skill) -> ParsedView {
    ParsedView {
        name: skill.frontmatter.name@,
        name_line: skill.frontmatter.name_line as nat,
        description: skill.frontmatter.description@,
        description_line: skill.frontmatter.description_line as nat,
        license: match skill.frontmatter.license {
            Some(l) => Some(l@),
            None => None,
        },
        license_line: match skill.frontmatter.license_line {
            Some(l) => Some(l as nat),
            None => None,
        },
        extra: extra_views(skill.frontmatter.extra@),
        body: skill.body@,
        body_line_offset: skill.body_line_offset as nat,
    }
}

/// The kind of failure `e` is, for a failure to parse.
pub open spec fn failure_of(e: AdeptError) -> Option<ParseFailure> {
    match e {
        AdeptError::MissingFrontmatter { .. } => Some(ParseFailure::MissingFrontmatter),
        AdeptError::UnterminatedFrontmatter { .. } => Some(ParseFailure::UnterminatedFrontmatter),
        AdeptError::InvalidYaml { message, .. } => Some(ParseFailure::InvalidYaml(message@)),
        AdeptError::FrontmatterNotMapping { .. } => Some(ParseFailure::NotMapping),
        AdeptError::MissingField { field, .. } => Some(ParseFailure::MissingField(field@)),
        AdeptError::InvalidFieldType { field, .. } => Some(ParseFailure::InvalidFieldType(field@)),
        _ => None,
    }
}

/// The path a parse failure names.
pub open spec fn failure_path(e: AdeptError) -> Seq<char> {
    match e {
        AdeptError::MissingFrontmatter { path } => path@,
        AdeptError::UnterminatedFrontmatter { path } => path@,
        AdeptError::InvalidYaml { path, .. } => path@,
        AdeptError::FrontmatterNotMapping { path } => path@,
        AdeptError::MissingField { path, .. } => path@,
        AdeptError::InvalidFieldType { path, .. } => path@,
        _ => Seq::empty(),
    }
}

/// The lines of `src`, each without a trailing `\r`.
fn split_src(src: &str) -> (r: Vec<Vec<char>>)
    ensures
        char_views(r@) == src_lines(src@),
        r.len() >= 1,
{
    let cs = chars_of(src);
    let mut done: Vec<Vec<char>> = Vec::new();
    let mut cur: Vec<char> = Vec::new();
    let mut i: usize = 0;
    proof {
        assert(cs@.take(0) =~= Seq::<char>::empty());
    }
    while i < cs.len()
        invariant
            i <= cs.len(),
            cs@ == src@,
            char_views(done@) + seq![cur@] == pieces(cs@.take(i as int)),
        decreases cs.len() - i,
    {
        let ghost p = pieces(cs@.take(i as int));
        proof {
            assert(cs@.take(i + 1).drop_last() =~= cs@.take(i as int));
            assert(cs@.take(i + 1).last() == cs@[i as int]);
        }
        let c = cs[i];
        if c == '\n' {
            let ghost before = char_views(done@);
            let finished = cur;
            cur = Vec::new();
            done.push(finished);
            proof {
                assert(char_views(done@) =~= before.push(finished@));
                assert(char_views(done@) + seq![cur@] =~= p.push(Seq::empty()));
            }
        } else {
            cur.push(c);
            proof {
                assert(char_views(done@) + seq![cur@] =~= p.update(p.len() - 1, p.last().push(c)));
            }
        }
        i += 1;
    }
    proof {
        assert(cs@.take(cs.len() as int) =~= cs@);
    }
    let ghost before = char_views(done@);
    done.push(cur);
    proof {
        assert(char_views(done@) =~= pieces(src@));
    }
    let ghost ps = char_views(done@);
    let mut out: Vec<Vec<char>> = Vec::new();
    let mut k: usize = 0;
    while k < done.len()
        invariant
            k <= done.len(),
            ps == char_views(done@),
            ps == pieces(src@),
            char_views(out@) == ps.take(k as int).map_values(|l: Seq<char>| strip_cr(l)),
        decreases done.len() - k,
    {
        let l = &done[k];
        let n = l.len();
        let mut line: Vec<char> = Vec::new();
        let end = if n > 0 && l[n - 1] == '\r' { n - 1 } else { n };
        let mut m: usize = 0;
        while m < end
            invariant
                end <= n == l.len(),
                m <= end,
                line@ == l@.take(m as int),
            decreases end - m,
        {
            line.push(l[m]);
            proof {
                assert(l@.take(m + 1) =~= l@.take(m as int).push(l@[m as int]));
            }
            m += 1;
        }
        proof {
            assert(ps[k as int] == l@);
            if n > 0 && l@[n - 1] == '\r' {
                assert(line@ =~= l@.drop_last());
            } else {
                assert(line@ =~= l@);
            }
            assert(line@ == strip_cr(ps[k as int]));
        }
        let ghost before = char_views(out@);
        out.push(line);
        proof {
            assert(char_views(out@) =~= before.push(strip_cr(ps[k as int])));
            assert(ps.take(k + 1).map_values(|l: Seq<char>| strip_cr(l)) =~= ps.take(k as int).map_values(
                |l: Seq<char>| strip_cr(l),
            ).push(strip_cr(ps[k as int])));
        }
        k += 1;
    }
    proof {
        assert(ps.take(done.len() as int) =~= ps);
        lemma_pieces_len(src@);
    }
    out
}

fn is_delimiter(l: &Vec<char>) -> (r: bool)
    ensures
        r == (l@ == "---"@),
{
    proof {
        assert("---"@ =~= seq!['-', '-', '-']) by {
            reveal_strlit("---");
        }
    }
    let r = l.len() == 3 && l[0] == '-' && l[1] == '-' && l[2] == '-';
    proof {
        if r {
            assert(l@ =~= seq!['-', '-', '-']);
        }
    }
    r
}

/// `ls[a..b]` joined with newlines.
fn join_range(ls: &Vec<Vec<char>>, a: usize, b: usize) -> (r: String)
    requires
        a <= b <= ls.len(),
    ensures
        r@ == join(char_views(ls@).subrange(a as int, b as int), '\n'),
{
    let ghost lv = char_views(ls@);
    let mut out = String::new();
    let mut i = a;
    proof {
        assert(lv.subrange(a as int, a as int) =~= Seq::<Seq<char>>::empty());
    }
    while i < b
        invariant
            a <= i <= b <= ls.len(),
            lv == char_views(ls@),
            out@ == join(lv.subrange(a as int, i as int), '\n'),
        decreases b - i,
    {
        let ghost prev = lv.subrange(a as int, i as int);
        proof {
            assert(lv.subrange(a as int, i + 1) =~= prev.push(ls@[i as int]@));
            crate::text::lemma_join_push(prev, ls@[i as int]@, '\n');
        }
        if i > a {
            push_char(&mut out, '\n');
        }
        crate::chars::push_all(&mut out, &ls[i]);
        i += 1;
    }
    out
}

/// The 1-based line of the first line in `ls[1..close]` that starts with
/// `key:`, else 1.
fn key_line(ls: &Vec<Vec<char>>, close: usize, key: &str) -> (r: usize)
    requires
        close <= ls.len(),
    ensures
        r == key_line_from(char_views(ls@), close as int, key@, 1),
{
    let ghost lv = char_views(ls@);
    let mut pat = chars_of(key);
    pat.push(':');
    let mut i: usize = 1;
    while i < close
        invariant
            1 <= i,
            close <= ls.len(),
            lv == char_views(ls@),
            pat@ == key@.push(':'),
            key_line_from(lv, close as int, key@, 1) == key_line_from(lv, close as int, key@, i as int),
        decreases close - i,
    {
        proof {
            assert(lv[i as int] == ls@[i as int]@);
        }
        if crate::chars::starts_with_chars(&ls[i], &pat) {
            return i + 1;
        }
        i += 1;
    }
    1
}

fn find_entry(es: &Vec<YamlEntry>, key: &str) -> (r: Option<usize>)
    ensures
        match r {
            Some(i) => i < es.len() && lookup(es@.map_values(|e: YamlEntry| entry_view(e)), key@)
                == Some(entry_view(es@[i as int]).value),
            None => lookup(es@.map_values(|e: YamlEntry| entry_view(e)), key@).is_none(),
        },
{
    let ghost ev = es@.map_values(|e: YamlEntry| entry_view(e));
    let k = owned(key);
    let mut i: usize = 0;
    proof {
        assert(ev.skip(0) =~= ev);
    }
    while i < es.len()
        invariant
            i <= es.len(),
            ev == es@.map_values(|e: YamlEntry| entry_view(e)),
            k@ == key@,
            lookup(ev, key@) == lookup(ev.skip(i as int), key@),
        decreases es.len() - i,
    {
        proof {
            assert(ev.skip(i as int)[0] == entry_view(es@[i as int]));
            assert(ev.skip(i as int).drop_first() =~= ev.skip(i + 1));
        }
        match &es[i].key {
            Some(name) => {
                if *name == k {
                    return Some(i);
                }
            },
            None => {},
        }
        i += 1;
    }
    None
}

/// The SKILL.md parser for Anthropic's Agent Skills format.
pub struct AnthropicSkillParser;

impl AnthropicSkillParser {
    /// Parses SKILL.md text `source` read from `path`.
    pub fn parse_str(&self, path: &str, source: &str) -> (r: Result<Skill, AdeptError>)
        ensures
            match r {
                Ok(skill) => parse_spec(source@) == Ok::<ParsedView, ParseFailure>(parsed_view(skill))
                    && skill.path@ == path@ && skill.source@ == source@ && skill.companions@.len() == 0
                    && skill.existing_references@.len() == 0,
                Err(e) => parse_spec(source@) == Err::<ParsedView, ParseFailure>(failure_of(e).unwrap())
                    && failure_of(e).is_some() && failure_path(e) == path@,
            },
    {
        let ls = split_src(source);
        let ghost lv = char_views(ls@);
        proof {
            assert(lv[0] == ls@[0]@);
        }
        if !is_delimiter(&ls[0]) {
            return Err(AdeptError::MissingFrontmatter { path: owned(path) });
        }
        let mut close: usize = 1;
        proof {
            assert(closing_from(lv, 1) == closing_from(lv, close as int));
        }
        while close < ls.len() && !is_delimiter(&ls[close])
            invariant
                1 <= close <= ls.len(),
                lv == char_views(ls@),
                closing_from(lv, 1) == closing_from(lv, close as int),
            decreases ls.len() - close,
        {
            proof {
                assert(lv[close as int] == ls@[close as int]@);
            }
            close += 1;
        }
        if close == ls.len() {
            return Err(AdeptError::UnterminatedFrontmatter { path: owned(path) });
        }
        proof {
            assert(lv[close as int] == ls@[close as int]@);
        }
        let text = join_range(&ls, 1, close);
        let doc = match load_yaml(text.as_str()) {
            Err(message) => return Err(AdeptError::InvalidYaml { path: owned(path), message }),
            Ok(d) => d,
        };
        let es = match doc {
            YamlDoc::NotMapping => return Err(AdeptError::FrontmatterNotMapping { path: owned(path) }),
            YamlDoc::Mapping(es) => es,
        };
        let ghost ev = es@.map_values(|e: YamlEntry| entry_view(e));
        let name = match find_entry(&es, "name") {
            None => return Err(AdeptError::MissingField { path: owned(path), field: owned("name") }),
            Some(i) => match &es[i].value {
                YamlValue::Str(s) => s.clone(),
                YamlValue::Other => return Err(AdeptError::InvalidFieldType { path: owned(path), field: owned("name") }),
            },
        };
        let description = match find_entry(&es, "description") {
            None => return Err(AdeptError::MissingField { path: owned(path), field: owned("description") }),
            Some(i) => match &es[i].value {
                YamlValue::Str(s) => s.clone(),
                YamlValue::Other => return Err(
                    AdeptError::InvalidFieldType { path: owned(path), field: owned("description") },
                ),
            },
        };
        let (license, license_line) = match find_entry(&es, "license") {
            None => (None, None),
            Some(i) => match &es[i].value {
                YamlValue::Str(s) => (Some(s.clone()), Some(key_line(&ls, close, "license"))),
                YamlValue::Other => return Err(AdeptError::InvalidFieldType { path: owned(path), field: owned("license") }),
            },
        };
        let mut extra: Vec<ExtraField> = Vec::new();
        let mut j: usize = 0;
        while j < es.len()
            invariant
                j <= es.len(),
                close <= ls.len(),
                lv == char_views(ls@),
                ev == es@.map_values(|e: YamlEntry| entry_view(e)),
                extra_views(extra@) == extras(ev, lv, close as int, j as nat),
            decreases es.len() - j,
        {
            let ghost before = extra_views(extra@);
            proof {
                assert(ev[j as int] == entry_view(es@[j as int]));
            }
            match &es[j].key {
                Some(k) => {
                    let kc = chars_of(k.as_str());
                    let known = crate::companion::same_chars(&kc, &chars_of("name")) || crate::companion::same_chars(
                        &kc,
                        &chars_of("description"),
                    ) || crate::companion::same_chars(&kc, &chars_of("license"));
                    if !known {
                        let value = match &es[j].value {
                            YamlValue::Str(s) => Some(s.clone()),
                            YamlValue::Other => None,
                        };
                        let line = key_line(&ls, close, k.as_str());
                        extra.push(ExtraField { key: k.clone(), value, line });
                        proof {
                            assert(extra_views(extra@) =~= extras(ev, lv, close as int, (j + 1) as nat));
                        }
                    } else {
                        proof {
                            assert(extra_views(extra@) =~= extras(ev, lv, close as int, (j + 1) as nat));
                        }
                    }
                },
                None => {
                    proof {
                        assert(extra_views(extra@) =~= extras(ev, lv, close as int, (j + 1) as nat));
                    }
                },
            }
            j += 1;
        }
        let frontmatter = Frontmatter {
            name,
            name_line: key_line(&ls, close, "name"),
            description,
            description_line: key_line(&ls, close, "description"),
            license,
            license_line,
            extra: sort_extras(extra),
        };
        let body = join_range(&ls, close + 1, ls.len());
        let body_line_offset = if close < usize::MAX - 1 { close + 2 } else { usize::MAX };
        Ok(Skill {
            path: owned(path),
            frontmatter,
            body,
            body_line_offset,
            source: owned(source),
            companions: Vec::new(),
            existing_references: Vec::new(),
        })
    }
}

/// Parses SKILL.md text `source` read from `path` with
/// [`AnthropicSkillParser`].
pub fn parse_skill(path: &str, source: &str) -> (r: Result<Skill, AdeptError>)
    ensures
        match r {
            Ok(skill) => parse_spec(source@) == Ok::<ParsedView, ParseFailure>(parsed_view(skill))
                && skill.path@ == path@ && skill.source@ == source@ && skill.companions@.len() == 0
                && skill.existing_references@.len() == 0,
            Err(e) => parse_spec(source@) == Err::<ParsedView, ParseFailure>(failure_of(e).unwrap())
                && failure_of(e).is_some() && failure_path(e) == path@,
        },
{
    AnthropicSkillParser.parse_str(path, source)
}

} // verus!
