//! A single problem vocabulary for every validation level.
//!
//! A [`Problem`] is anything that can be wrong while validating — a failed spec
//! check, a column that disagrees with the data, an unreadable file. They vary
//! only on where the problem points (a YAML span / a named column / nowhere) and
//! what structured payload they carry; a code, a severity, and a message are
//! common to all.
//!
//! There is no `fatal` field by design: a problem that must stop the run is the
//! last thing a level pushes before returning, and a problem that blocks the
//! next level is caught by the driver checking [`ProblemSet::status`] before
//! descending. Fatality is control flow, not data.

use vstd::prelude::*;

use quarto_source_map::{SourceContext, SourceInfo};

use crate::Level;
use crate::text::{decimal, decimal_string};

verus! {

/// A span of the dictionary's source, as the YAML reader records it. Carried,
/// never looked into, by the logic here.
#[verifier::external_type_specification]
#[verifier::external_body]
pub struct ExSourceInfo(SourceInfo);

/// `SourceInfo::clone` (derived): a copy of a span. Nothing is claimed of the
/// copy, since no proof here looks into a span.
pub assume_specification[ <SourceInfo as Clone>::clone ](s: &SourceInfo) -> (r: SourceInfo);

/// The files the spans of a problem set point into.
#[verifier::external_type_specification]
#[verifier::external_body]
pub struct ExSourceContext(SourceContext);

/// Whether a problem blocks validation (`Error`) or is purely advisory
/// (`Warning`). Errors fail validation; warnings are reported alongside a
/// successful result.
#[derive(Debug, Clone, Copy, PartialEq, Eq, Structural)]
pub enum Severity {
    Error,
    Warning,
}

/// The overall verdict for a [`ProblemSet`]: the worst severity present, or
/// `Clean` when there is nothing to report. Only `Error` fails validation; `Clean`
/// and `Warning` both pass.
#[derive(Debug, Clone, Copy, PartialEq, Eq, Structural)]
pub enum Status {
    Clean,
    Warning,
    Error,
}

impl Status {
    /// Whether this verdict fails validation (i.e. is an error).
    pub fn failed(self) -> (r: bool)
        ensures
            r == (self == Status::Error),
    {
        self == Status::Error
    }
}

/// One problem found while validating, at any level. `code` and `column` are
/// present only when meaningful (spec problems have a code but no column;
/// pre-flight failures have neither); `context` drives source-highlighted
/// rendering; `kind` is the structured payload.
#[derive(Debug)]
pub struct Problem {
    pub code: Option<&'static str>,
    pub severity: Severity,
    pub message: String,
    pub column: Option<String>,
    /// What the spec expects, stated independently of this occurrence. When
    /// present it leads the rendering (the title line) and `message` reports
    /// what was found instead.
    pub expected: Option<String>,
    /// The YAML spans this problem points at, ordered outermost-first: the
    /// **last** span is the primary label (carrying `message`) and any preceding
    /// spans are enclosing source lines shown faded to locate it.
    pub context: Vec<SourceInfo>,
    pub kind: ProblemKind,
}

/// A resolved source span as 0-based line/column bounds, for JSON consumers.
#[derive(Debug)]
pub struct SpanLocation {
    pub start_line: usize,
    pub start_column: usize,
    pub end_line: usize,
    pub end_column: usize,
}

/// The structured payload behind a [`Problem`].
#[derive(Debug)]
pub enum ProblemKind {
    /// I/O failure reading the document.
    Io,
    /// The document is not parseable as YAML.
    Parse,
    /// The document failed structural validation against `schema.yaml`.
    Schema,
    /// The parquet file could not be read.
    Parquet,
    /// A table name was given but no such table exists.
    TableNotFound { available: Vec<String> },
    /// A semantic spec check (`S##`) failed; the specific code is in
    /// [`Problem::code`] and the detail in [`Problem::message`].
    Spec,
    /// `M01` — declared type is not compatible with the type read from the data.
    TypeMismatch { declared: String, actual: String },
    /// `M02` — column described by the dictionary but absent from the data.
    MissingInData,
    /// `M03` — column present in the data but not described by the dictionary.
    ExtraInData { actual: String },
    /// `M04` — a table validated against data declares no `source`.
    MissingSource,
    /// `M05` — a table's `source` is declared but its data can't be read.
    UnreadableSource,
    /// `D01` — a `required` (or `primary_key`) column contains nulls. `rows`
    /// lists the first few offending row numbers (1-based); `count` is the total.
    NullsInRequired { count: usize, rows: Vec<usize> },
}

/// The fixed rule code of a kind, when it has one.
pub open spec fn kind_code(k: ProblemKind) -> Option<Seq<char>> {
    match k {
        ProblemKind::TypeMismatch { .. } => Some("M01"@),
        ProblemKind::MissingInData => Some("M02"@),
        ProblemKind::ExtraInData { .. } => Some("M03"@),
        ProblemKind::MissingSource => Some("M04"@),
        ProblemKind::UnreadableSource => Some("M05"@),
        ProblemKind::NullsInRequired { .. } => Some("D01"@),
        _ => None,
    }
}

/// The validation level a kind belongs to, when it maps to one.
pub open spec fn kind_level(k: ProblemKind) -> Option<Level> {
    match k {
        ProblemKind::Spec => Some(Level::Spec),
        ProblemKind::TypeMismatch { .. } | ProblemKind::MissingInData | ProblemKind::ExtraInData {
            ..
        } | ProblemKind::MissingSource | ProblemKind::UnreadableSource => Some(Level::Meta),
        ProblemKind::NullsInRequired { .. } => Some(Level::Data),
        _ => None,
    }
}

/// A kind with a rule code belongs to a validation level, and the code's
/// letter names that level.
pub proof fn law_code_letter_names_the_level(k: ProblemKind)
    ensures
        kind_code(k) matches Some(c) ==> kind_level(k) matches Some(l) && c.len() == 3 && (c[0]
            == 'M' <==> l == Level::Meta) && (c[0] == 'D' <==> l == Level::Data),
{
    reveal_strlit("M01");
    reveal_strlit("M02");
    reveal_strlit("M03");
    reveal_strlit("M04");
    reveal_strlit("M05");
    reveal_strlit("D01");
}

impl ProblemKind {
    /// The fixed rule code for kinds that have one. Spec checks return `None`
    /// because the code varies per check and is set explicitly; pre-flight
    /// failures have no rule code.
    pub fn code(&self) -> (r: Option<&'static str>)
        ensures
            match r {
                Some(c) => kind_code(*self) == Some(c@),
                None => kind_code(*self) is None,
            },
    {
        match self {
            ProblemKind::TypeMismatch { .. } => Some("M01"),
            ProblemKind::MissingInData => Some("M02"),
            ProblemKind::ExtraInData { .. } => Some("M03"),
            ProblemKind::MissingSource => Some("M04"),
            ProblemKind::UnreadableSource => Some("M05"),
            ProblemKind::NullsInRequired { .. } => Some("D01"),
            _ => None,
        }
    }

    /// The validation level this kind belongs to, when it maps to one.
    /// Pre-flight failures (`Io`/`Parse`/`Parquet`/…) return `None`.
    pub fn level(&self) -> (r: Option<Level>)
        ensures
            r == kind_level(*self),
    {
        match self {
            ProblemKind::Spec => Some(Level::Spec),
            ProblemKind::TypeMismatch { .. } | ProblemKind::MissingInData
            | ProblemKind::ExtraInData { .. } | ProblemKind::MissingSource
            | ProblemKind::UnreadableSource => Some(Level::Meta),
            ProblemKind::NullsInRequired { .. } => Some(Level::Data),
            _ => None,
        }
    }
}

impl Problem {
    /// A spec-level problem (`S##`), located by a YAML span.
    pub fn spec(code: &'static str, severity: Severity, message: String, span: SourceInfo) -> (r:
        Problem)
        ensures
            r.code == Some(code),
            r.severity == severity,
            r.message@ == message@,
            r.column is None,
            r.expected is None,
            r.context@ == seq![span],
            r.kind is Spec,
    {
        Problem {
            code: Some(code),
            severity,
            message,
            column: None,
            expected: None,
            context: vec![span],
            kind: ProblemKind::Spec,
        }
    }

    /// `M03` — a column present in the data but not described by the
    /// dictionary. It exists only in the data, so it has no dictionary location
    /// and is named in the message rather than highlighted in source.
    pub fn undocumented_column(name: &str, actual: String) -> (r: Problem)
        ensures
            r.code == Some("M03"),
            r.severity == Severity::Warning,
            r.message@ == "`"@ + name@ + "` is in the data (`"@ + actual@
                + "`) but not the dictionary"@,
            r.column matches Some(c) && c@ == name@,
            r.expected matches Some(e) && e@
                == "Every column in the data should be described in the dictionary."@,
            r.context@.len() == 0,
            r.kind matches ProblemKind::ExtraInData { actual: a } && a@ == actual@,
    {
        let mut message = String::from_str("`");
        message.append(name);
        message.append("` is in the data (`");
        message.append(actual.as_str());
        message.append("`) but not the dictionary");
        Problem {
            code: Some("M03"),
            severity: Severity::Warning,
            message,
            column: Some(String::from_str(name)),
            expected: Some(
                String::from_str("Every column in the data should be described in the dictionary."),
            ),
            context: Vec::new(),
            kind: ProblemKind::ExtraInData { actual },
        }
    }

    /// A pre-flight failure: it carries no location, only a kind and a message.
    pub fn preflight(kind: ProblemKind, message: String) -> (r: Problem)
        ensures
            r.code is None,
            r.severity == Severity::Error,
            r.message@ == message@,
            r.column is None,
            r.expected is None,
            r.context@.len() == 0,
            r.kind == kind,
    {
        Problem {
            code: None,
            severity: Severity::Error,
            message,
            column: None,
            expected: None,
            context: Vec::new(),
            kind,
        }
    }

    /// The plain rendering of a problem with no source span: a
    /// `severity [code]: headline` line (just the headline when there is no
    /// code), where the headline is `expected` when set, followed by the
    /// found `message` on its own indented line.
    pub fn render_plain(&self) -> (r: String)
        ensures
            r@ == plain_text(self.severity, self.code, self.expected, self.message@),
    {
        let severity = match self.severity {
            Severity::Error => "error",
            Severity::Warning => "warning",
        };
        let headline: &str = match &self.expected {
            Some(e) => e.as_str(),
            None => self.message.as_str(),
        };
        let mut line = match self.code {
            Some(code) => {
                let mut l = String::from_str(severity);
                l.append(" [");
                l.append(code);
                l.append("]: ");
                l.append(headline);
                l
            },
            None => String::from_str(headline),
        };
        if self.expected.is_some() {
            line.append("\n  ");
            line.append(self.message.as_str());
        }
        line
    }
}

pub open spec fn severity_word(s: Severity) -> Seq<char> {
    match s {
        Severity::Error => "error"@,
        Severity::Warning => "warning"@,
    }
}

/// The plain rendering that [`Problem::render_plain`] produces.
pub open spec fn plain_text(
    severity: Severity,
    code: Option<&'static str>,
    expected: Option<String>,
    message: Seq<char>,
) -> Seq<char> {
    let headline = match expected {
        Some(e) => e@,
        None => message,
    };
    let first = match code {
        Some(c) => severity_word(severity) + " ["@ + c@ + "]: "@ + headline,
        None => headline,
    };
    match expected {
        Some(_) => first + "\n  "@ + message,
        None => first,
    }
}

/// `SourceContext::new`: a source context with no files in it. Nothing
/// about the value is stated; it is carried through.
#[verifier::external_body]
fn empty_source() -> (r: SourceContext) {
    SourceContext::new()
}

/// The line/column bounds of a problem's primary span, from the 0-based row
/// and column its start and its end fall on: none unless both resolved.
/// Resolving an offset may read the file from disk, so the caller resolves
/// them (the start, and the start plus the span's length) and hands them here.
pub fn location_from(start: Option<(usize, usize)>, end: Option<(usize, usize)>) -> (r: Option<SpanLocation>)
    ensures
        match (start, end) {
            (Some(a), Some(b)) => r matches Some(l) && l.start_line == a.0 && l.start_column == a.1
                && l.end_line == b.0 && l.end_column == b.1,
            _ => r is None,
        },
{
    match (start, end) {
        (Some(a), Some(b)) => Some(SpanLocation { start_line: a.0, start_column: a.1, end_line: b.0, end_column: b.1 }),
        _ => None,
    }
}

/// Every problem found while validating a document, with the
/// [`SourceContext`] needed to render the span-located ones.
#[derive(Debug)]
pub struct ProblemSet {
    pub items: Vec<Problem>,
    pub source: SourceContext,
}

/// The verdict a list of severities adds up to: the worst one present.
pub open spec fn status_of(sev: Seq<Severity>) -> Status {
    if exists|i: int| 0 <= i < sev.len() && sev[i] == Severity::Error {
        Status::Error
    } else if sev.len() > 0 {
        Status::Warning
    } else {
        Status::Clean
    }
}

impl ProblemSet {
    pub open spec fn severities(&self) -> Seq<Severity> {
        self.items@.map_values(|p: Problem| p.severity)
    }

    /// An empty set tied to a source context, ready for checks to push into.
    pub fn new(source: SourceContext) -> (r: ProblemSet)
        ensures
            r.items@.len() == 0,
            r.source == source,
    {
        ProblemSet { items: Vec::new(), source }
    }

    pub fn push(&mut self, problem: Problem)
        ensures
            final(self).items@ == old(self).items@.push(problem),
            final(self).source == old(self).source,
    {
        self.items.push(problem);
    }

    /// A set holding one pre-flight failure, for a run that stopped before it
    /// had a document to point into; its source context holds no files.
    pub fn from_preflight(kind: ProblemKind, message: String) -> (r: ProblemSet)
        ensures
            r.items@.len() == 1,
            r.items@[0].code is None,
            r.items@[0].severity == Severity::Error,
            r.items@[0].message@ == message@,
            r.items@[0].column is None,
            r.items@[0].expected is None,
            r.items@[0].context@.len() == 0,
            r.items@[0].kind == kind,
    {
        let mut set = ProblemSet::new(empty_source());
        set.push(Problem::preflight(kind, message));
        set
    }

    /// Push a problem located in the document: `expected` states the rule,
    /// `actual` reports what was found, and `spans` locates it — the last span
    /// is the primary highlight carrying `actual`.
    fn push_located_problem(
        &mut self,
        code: &'static str,
        kind: ProblemKind,
        severity: Severity,
        expected: String,
        actual: String,
        spans: Vec<SourceInfo>,
    )
        requires
            spans@.len() > 0,
        ensures
            final(self).source == old(self).source,
            final(self).items@.len() == old(self).items@.len() + 1,
            final(self).items@.take(old(self).items@.len() as int) == old(self).items@,
            ({
                let p = final(self).items@.last();
                &&& p.code == Some(code)
                &&& p.severity == severity
                &&& p.message@ == actual@
                &&& p.column is None
                &&& p.expected matches Some(e) && e@ == expected@
                &&& p.context@ == spans@
                &&& p.kind == kind
            }),
    {
        self.push(
            Problem {
                code: Some(code),
                severity,
                message: actual,
                column: None,
                expected: Some(expected),
                context: spans,
                kind,
            },
        );
        assert(self.items@.take(old(self).items@.len() as int) =~= old(self).items@);
    }

    /// Push a spec problem (`S##`) at error severity.
    pub fn push_spec_error(
        &mut self,
        code: &'static str,
        expected: String,
        actual: String,
        spans: Vec<SourceInfo>,
    )
        requires
            spans@.len() > 0,
        ensures
            final(self).source == old(self).source,
            final(self).items@.len() == old(self).items@.len() + 1,
            final(self).items@.take(old(self).items@.len() as int) == old(self).items@,
            ({
                let p = final(self).items@.last();
                &&& p.code == Some(code)
                &&& p.severity == Severity::Error
                &&& p.message@ == actual@
                &&& p.column is None
                &&& p.expected matches Some(e) && e@ == expected@
                &&& p.context@ == spans@
                &&& p.kind is Spec
            }),
    {
        self.push_located_problem(code, ProblemKind::Spec, Severity::Error, expected, actual, spans);
    }

    /// Push a spec problem at warning severity.
    pub fn push_spec_warning(
        &mut self,
        code: &'static str,
        expected: String,
        actual: String,
        spans: Vec<SourceInfo>,
    )
        requires
            spans@.len() > 0,
        ensures
            final(self).source == old(self).source,
            final(self).items@.len() == old(self).items@.len() + 1,
            final(self).items@.take(old(self).items@.len() as int) == old(self).items@,
            ({
                let p = final(self).items@.last();
                &&& p.code == Some(code)
                &&& p.severity == Severity::Warning
                &&& p.message@ == actual@
                &&& p.column is None
                &&& p.expected matches Some(e) && e@ == expected@
                &&& p.context@ == spans@
                &&& p.kind is Spec
            }),
    {
        self.push_located_problem(code, ProblemKind::Spec, Severity::Warning, expected, actual, spans);
    }

    /// Push a metadata/data problem located at the dictionary node it
    /// concerns; `code` comes from `kind`.
    pub fn push_located(
        &mut self,
        kind: ProblemKind,
        severity: Severity,
        expected: String,
        actual: String,
        spans: Vec<SourceInfo>,
    )
        requires
            spans@.len() > 0,
            kind_code(kind) is Some,
        ensures
            final(self).source == old(self).source,
            final(self).items@.len() == old(self).items@.len() + 1,
            final(self).items@.take(old(self).items@.len() as int) == old(self).items@,
            ({
                let p = final(self).items@.last();
                &&& p.code matches Some(c) && kind_code(kind) == Some(c@)
                &&& p.severity == severity
                &&& p.message@ == actual@
                &&& p.expected matches Some(e) && e@ == expected@
                &&& p.context@ == spans@
                &&& p.kind == kind
            }),
    {
        let code = match kind.code() {
            Some(c) => c,
            None => {
                proof {
                    assert(false);
                }
                ""
            },
        };
        self.push_located_problem(code, kind, severity, expected, actual, spans);
    }

    /// The worst severity present: `Error` when any problem is an error,
    /// `Warning` when all of them are warnings, and `Clean` when there are none.
    pub fn status(&self) -> (r: Status)
        ensures
            r == status_of(self.severities()),
    {
        let mut status = Status::Clean;
        let mut i: usize = 0;
        while i < self.items.len()
            invariant
                i <= self.items@.len(),
                forall|k: int| 0 <= k < i ==> #[trigger] self.items@[k].severity != Severity::Error,
                status == (if i == 0 {
                    Status::Clean
                } else {
                    Status::Warning
                }),
            decreases self.items@.len() - i,
        {
            match self.items[i].severity {
                Severity::Error => {
                    assert(self.severities()[i as int] == Severity::Error);
                    return Status::Error;
                },
                Severity::Warning => status = Status::Warning,
            }
            i = i + 1;
        }
        assert forall|k: int| 0 <= k < self.severities().len() implies self.severities()[k]
            != Severity::Error by {
            assert(self.severities()[k] == self.items@[k].severity);
        }
        status
    }
}

/// A problem set's verdict fails validation exactly when one of its problems
/// is an error; warnings alone pass.
pub proof fn law_status_fails_iff_some_error(sev: Seq<Severity>)
    ensures
        (status_of(sev) == Status::Error) <==> exists|i: int| 0 <= i < sev.len() && sev[i]
            == Severity::Error,
        status_of(sev) == Status::Clean <==> sev.len() == 0,
{
}

/// The row numbers `rows`, each in decimal, separated by `, `.
pub open spec fn joined_rows(rows: Seq<usize>) -> Seq<char>
    decreases rows.len(),
{
    if rows.len() == 0 {
        seq![]
    } else if rows.len() == 1 {
        decimal(rows[0] as nat)
    } else {
        joined_rows(rows.drop_last()) + ", "@ + decimal(rows.last() as nat)
    }
}

/// Offending row numbers for display: `rows: 3, 7, 12`, with a trailing
/// `, …` when there were more offenders than the recorded sample. The label is
/// singular (`row: 3`) for a lone offender.
pub open spec fn rows_text(rows: Seq<usize>, count: nat) -> Seq<char> {
    let label = if count == 1 {
        "row"@
    } else {
        "rows"@
    };
    if count > rows.len() {
        label + ": "@ + joined_rows(rows) + ", …"@
    } else {
        label + ": "@ + joined_rows(rows)
    }
}

/// `rows` in decimal, separated by `, `.
pub fn join_rows(rows: &[usize]) -> (r: String)
    ensures
        r@ == joined_rows(rows@),
{
    let mut out = String::new();
    let mut i: usize = 0;
    while i < rows.len()
        invariant
            i <= rows@.len(),
            out@ == joined_rows(rows@.take(i as int)),
        decreases rows@.len() - i,
    {
        let d = decimal_string(rows[i]);
        proof {
            let t = rows@.take(i + 1);
            assert(t.drop_last() =~= rows@.take(i as int));
            assert(t.last() == rows@[i as int]);
            if i == 0 {
                assert(t =~= seq![rows@[0]]);
            }
        }
        if i > 0 {
            out.append(", ");
        }
        out.append(d.as_str());
        proof {
            if i == 0 {
                assert(out@ =~= decimal(rows@[0] as nat));
            }
        }
        i = i + 1;
    }
    assert(rows@.take(rows@.len() as int) =~= rows@);
    out
}

/// Format offending row numbers for display (see [`rows_text`]).
pub fn format_rows(rows: &[usize], count: usize) -> (r: String)
    ensures
        r@ == rows_text(rows@, count as nat),
{
    let label = if count == 1 {
        "row"
    } else {
        "rows"
    };
    let listed = join_rows(rows);
    let mut out = String::from_str(label);
    out.append(": ");
    out.append(listed.as_str());
    if count > rows.len() {
        out.append(", …");
    }
    out
}

// --- Source order -------------------------------------------------------------------

/// What `SourceInfo::resolve_byte_range` gives for a span: its file, start and
/// end when it resolves to one stretch of one file. A function of the span
/// alone; which spans resolve, and to what, is left to that function.
pub uninterp spec fn span_byte_range(span: SourceInfo) -> Option<(usize, usize, usize)>;

/// `SourceInfo::resolve_byte_range`: the file, start and end of a span that
/// resolves to one stretch of one file, as [`span_byte_range`] names it.
#[verifier::external_body]
pub(crate) fn byte_range(span: &SourceInfo) -> (r: Option<(usize, usize, usize)>)
    ensures
        r == span_byte_range(*span),
{
    span.resolve_byte_range()
}

/// Where a problem sorts: the file and start of its primary (last) span's byte
/// range; a problem with no span, or one that does not resolve, sorts last.
pub open spec fn problem_key(p: Problem) -> (usize, usize) {
    if p.context@.len() == 0 {
        (usize::MAX, usize::MAX)
    } else {
        match span_byte_range(p.context@.last()) {
            Some((file, start, _)) => (file, start),
            None => (usize::MAX, usize::MAX),
        }
    }
}

/// Where a problem sorts: by file, then by offset.
pub open spec fn position_le(a: (usize, usize), b: (usize, usize)) -> bool {
    a.0 < b.0 || (a.0 == b.0 && a.1 <= b.1)
}

/// `x` inserted into `sorted` after every item whose position is no later.
pub open spec fn insert_by_position(sorted: Seq<((usize, usize), Problem)>, x: ((usize, usize), Problem)) -> Seq<
    ((usize, usize), Problem),
>
    decreases sorted.len(),
{
    if sorted.len() == 0 {
        seq![x]
    } else if position_le(sorted.last().0, x.0) {
        sorted.push(x)
    } else {
        insert_by_position(sorted.drop_last(), x).push(sorted.last())
    }
}

/// Problems paired with their positions, in position order, problems at one
/// position keeping their order: the stable sort.
pub open spec fn by_position(s: Seq<((usize, usize), Problem)>) -> Seq<((usize, usize), Problem)>
    decreases s.len(),
{
    if s.len() == 0 {
        seq![]
    } else {
        insert_by_position(by_position(s.drop_last()), s.last())
    }
}

/// Each problem paired with its position.
pub open spec fn paired(items: Seq<Problem>, keys: Seq<(usize, usize)>) -> Seq<((usize, usize), Problem)> {
    Seq::new(items.len(), |i: int| (keys[i], items[i]))
}

/// The problems of `items` in the order of their positions `keys`, stably.
pub open spec fn sorted_by_position(items: Seq<Problem>, keys: Seq<(usize, usize)>) -> Seq<Problem> {
    by_position(paired(items, keys)).map_values(|x: ((usize, usize), Problem)| x.1)
}

proof fn lemma_insert_by_position_at(s: Seq<((usize, usize), Problem)>, x: ((usize, usize), Problem), pos: int)
    requires
        0 <= pos <= s.len(),
        forall|j: int| pos <= j < s.len() ==> !position_le(#[trigger] s[j].0, x.0),
        pos == 0 || position_le(s[pos - 1].0, x.0),
    ensures
        insert_by_position(s, x) == s.take(pos) + seq![x] + s.skip(pos),
    decreases s.len(),
{
    if pos == s.len() {
        if s.len() == 0 {
            assert(s.take(pos) + seq![x] + s.skip(pos) =~= seq![x]);
        } else {
            assert(s.take(pos) + seq![x] + s.skip(pos) =~= s.push(x));
        }
    } else {
        let t = s.drop_last();
        assert(!position_le(s[s.len() - 1].0, x.0));
        assert forall|j: int| pos <= j < t.len() implies !position_le(#[trigger] t[j].0, x.0) by {
            assert(t[j] == s[j]);
        }
        if pos > 0 {
            assert(t[pos - 1] == s[pos - 1]);
        }
        lemma_insert_by_position_at(t, x, pos);
        assert(t.take(pos) + seq![x] + t.skip(pos) + seq![s.last()] =~= s.take(pos) + seq![x] + s.skip(pos));
    }
}

/// The problems of `items` in the order of their positions `keys`, problems
/// at one position keeping their order.
pub fn sort_by_position(items: Vec<Problem>, keys: Vec<(usize, usize)>) -> (r: Vec<Problem>)
    requires
        keys@.len() == items@.len(),
    ensures
        r@ == sorted_by_position(items@, keys@),
{
    let ghost orig = paired(items@, keys@);
    let mut rest = items;
    let mut sorted: Vec<((usize, usize), Problem)> = Vec::new();
    let mut k: usize = 0;
    let nk = keys.len();
    assert(orig.take(0) =~= Seq::<((usize, usize), Problem)>::empty());
    while rest.len() > 0
        invariant
            nk == keys@.len(),
            k <= keys@.len(),
            orig.len() == keys@.len(),
            rest@.len() + k == keys@.len(),
            forall|j: int| 0 <= j < rest@.len() ==> #[trigger] rest@[j] == orig[k + j].1,
            forall|j: int| 0 <= j < orig.len() ==> #[trigger] orig[j].0 == keys@[j],
            sorted@ == by_position(orig.take(k as int)),
        decreases rest@.len(),
    {
        let ghost r0 = rest@;
        let item = rest.remove(0);
        assert(item == orig[k as int].1);
        let key = keys[k];
        let x = (key, item);
        assert(x == orig[k as int]);
        let ghost sv = sorted@;
        let mut pos = sorted.len();
        while pos > 0 && !(sorted[pos - 1].0.0 < key.0 || (sorted[pos - 1].0.0 == key.0 && sorted[pos - 1].0.1 <= key.1))
            invariant
                pos <= sorted@.len(),
                sv == sorted@,
                forall|j: int| pos <= j < sv.len() ==> !position_le(#[trigger] sv[j].0, key),
            decreases pos,
        {
            pos = pos - 1;
        }
        proof {
            lemma_insert_by_position_at(sv, x, pos as int);
        }
        sorted.insert(pos, x);
        proof {
            assert(sorted@ =~= sv.take(pos as int) + seq![x] + sv.skip(pos as int));
            let t = orig.take(k + 1);
            assert(t.drop_last() =~= orig.take(k as int));
            assert(t.last() == x);
            assert forall|j: int| 0 <= j < rest@.len() implies #[trigger] rest@[j] == orig[k + 1 + j].1 by {
                assert(rest@[j] == r0[j + 1]);
            }
        }
        k = k + 1;
    }
    assert(orig.take(k as int) =~= orig);
    let ghost sv = sorted@;
    let ns = sorted.len();
    let mut out: Vec<Problem> = Vec::new();
    let mut i: usize = 0;
    while sorted.len() > 0
        invariant
            ns == sv.len(),
            i <= sv.len(),
            sorted@ == sv.skip(i as int),
            out@ == sv.take(i as int).map_values(|x: ((usize, usize), Problem)| x.1),
        decreases sorted@.len(),
    {
        let ghost s0 = sorted@;
        let (_, p) = sorted.remove(0);
        assert(s0[0] == sv[i as int]);
        out.push(p);
        proof {
            assert(sorted@ =~= sv.skip(i + 1));
            assert(out@ =~= sv.take(i + 1).map_values(|x: ((usize, usize), Problem)| x.1));
        }
        i = i + 1;
    }
    assert(sv.take(i as int) =~= sv);
    out
}

impl ProblemSet {
    /// Order span-located problems by their position in the document: by the
    /// file and start of the primary span's resolved byte range. The sort is
    /// stable, and problems without a resolvable span sort last.
    pub fn sort(&mut self)
        ensures
            final(self).source == old(self).source,
            final(self).items@ == sorted_by_position(
                old(self).items@,
                old(self).items@.map_values(|p: Problem| problem_key(p)),
            ),
    {
        let mut keys: Vec<(usize, usize)> = Vec::new();
        let mut i: usize = 0;
        while i < self.items.len()
            invariant
                i <= self.items@.len(),
                self.items == old(self).items,
                keys@.len() == i,
                forall|j: int| 0 <= j < i ==> keys@[j] == problem_key(#[trigger] self.items@[j]),
            decreases self.items@.len() - i,
        {
            let p = &self.items[i];
            let n = p.context.len();
            let key = if n == 0 {
                (usize::MAX, usize::MAX)
            } else {
                assert(p.context@.last() == p.context@[n - 1]);
                match byte_range(&p.context[n - 1]) {
                    Some((file, start, _)) => (file, start),
                    None => (usize::MAX, usize::MAX),
                }
            };
            keys.push(key);
            i = i + 1;
        }
        assert(keys@ =~= old(self).items@.map_values(|p: Problem| problem_key(p)));
        let mut items: Vec<Problem> = Vec::new();
        std::mem::swap(&mut items, &mut self.items);
        self.items = sort_by_position(items, keys);
    }
}

} // verus!
