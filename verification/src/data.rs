//! Comparing a dataset against the table of a data dictionary that describes
//! it: the issues one column can have, the report that collects them, and how
//! both read.

use vstd::prelude::*;

use crate::problem::{Severity, joined_rows};
use crate::text::decimal;

pub use crate::meta::{normalize_dict_type, types_compatible};

verus! {

/// A single way in which a dataset disagrees with its data dictionary. Every
/// issue concerns one `column` and carries its own [`Severity`]; `kind` says
/// what specifically is wrong.
#[derive(Debug)]
pub struct ColumnIssue {
    pub column: String,
    pub severity: Severity,
    pub kind: IssueKind,
}

/// What is wrong with a column — the payload behind a [`ColumnIssue`].
#[derive(Debug)]
pub enum IssueKind {
    /// The column is present in both, but its declared type is not compatible
    /// with the type read from the data.
    TypeMismatch { declared: String, actual: String },
    /// The column is described by the dictionary but absent from the data.
    MissingInData,
    /// The column is present in the data but the dictionary does not describe it.
    ExtraInData { actual: String },
    /// The column is marked `required` (or `primary_key`) but contains null
    /// values. `rows` lists the first few offending row numbers (1-based);
    /// `count` is the true total.
    NullsInRequired { count: usize, rows: Vec<usize> },
}

/// `rows: 2, 5, 9`, with `, …` when more rows offend than were recorded.
pub open spec fn data_rows_text(rows: Seq<usize>, count: nat) -> Seq<char> {
    if count > rows.len() {
        "rows: "@ + joined_rows(rows) + ", …"@
    } else {
        "rows: "@ + joined_rows(rows)
    }
}

/// Format offending row numbers for display, as [`data_rows_text`] states.
pub fn format_rows(rows: &[usize], count: usize) -> (r: String)
    ensures
        r@ == data_rows_text(rows@, count as nat),
{
    let listed = crate::problem::join_rows(rows);
    let mut out = String::from_str("rows: ");
    out.append(listed.as_str());
    if count > rows.len() {
        out.append(", …");
    }
    out
}

/// The text of an issue, without any severity prefix.
pub open spec fn issue_body(column: Seq<char>, kind: IssueKind) -> Seq<char> {
    let head = "column \""@ + column + "\": "@;
    match kind {
        IssueKind::TypeMismatch { declared, actual } => head + "declared "@ + declared@
            + ", data is "@ + actual@,
        IssueKind::MissingInData => head + "described in dictionary but missing from data"@,
        IssueKind::ExtraInData { actual } => head + "present in data ("@ + actual@
            + ") but not in dictionary"@,
        IssueKind::NullsInRequired { count, rows } => head + "required but has "@ + decimal(
            count as nat,
        ) + " null value"@ + (if count == 1 {
            ""@
        } else {
            "s"@
        }) + " ("@ + data_rows_text(rows@, count as nat) + ")"@,
    }
}

impl ColumnIssue {
    /// An error-severity issue: a hard mismatch that fails validation.
    pub fn error(column: String, kind: IssueKind) -> (r: ColumnIssue)
        ensures
            r.column@ == column@,
            r.severity == Severity::Error,
            r.kind == kind,
    {
        ColumnIssue { column, severity: Severity::Error, kind }
    }

    /// A warning-severity issue: advisory drift that is reported but does not
    /// fail validation.
    pub fn warning(column: String, kind: IssueKind) -> (r: ColumnIssue)
        ensures
            r.column@ == column@,
            r.severity == Severity::Warning,
            r.kind == kind,
    {
        ColumnIssue { column, severity: Severity::Warning, kind }
    }

    /// The human-readable description of the issue, without any severity prefix.
    pub fn body(&self) -> (r: String)
        ensures
            r@ == issue_body(self.column@, self.kind),
    {
        let mut out = String::from_str("column \"");
        out.append(self.column.as_str());
        out.append("\": ");
        match &self.kind {
            IssueKind::TypeMismatch { declared, actual } => {
                out.append("declared ");
                out.append(declared.as_str());
                out.append(", data is ");
                out.append(actual.as_str());
            },
            IssueKind::MissingInData => {
                out.append("described in dictionary but missing from data");
            },
            IssueKind::ExtraInData { actual } => {
                out.append("present in data (");
                out.append(actual.as_str());
                out.append(") but not in dictionary");
            },
            IssueKind::NullsInRequired { count, rows } => {
                out.append("required but has ");
                let n = crate::text::decimal_string(*count);
                out.append(n.as_str());
                out.append(" null value");
                proof {
                    reveal_strlit("");
                    assert(out@ + ""@ =~= out@);
                }
                if *count != 1 {
                    out.append("s");
                }
                out.append(" (");
                let listed = format_rows(rows.as_slice(), *count);
                out.append(listed.as_str());
                out.append(")");
            },
        }
        out
    }
}

/// The outcome of comparing a dataset against one table of a data dictionary:
/// the table compared and every way the two disagree.
#[derive(Debug)]
pub struct DataReport {
    pub table: String,
    pub issues: Vec<ColumnIssue>,
}

impl DataReport {
    /// A report for a comparison that did not run (e.g. the dictionary itself
    /// failed validation, so comparing data against it is not meaningful).
    pub fn skipped() -> (r: DataReport)
        ensures
            r.table@ == Seq::<char>::empty(),
            r.issues@.len() == 0,
    {
        DataReport { table: String::new(), issues: Vec::new() }
    }

    /// Whether any issue is an error. Warning-only reports (e.g. an
    /// undocumented column) do not fail validation.
    pub fn has_errors(&self) -> (r: bool)
        ensures
            r == exists|i: int| 0 <= i < self.issues@.len() && #[trigger] self.issues@[i].severity
                == Severity::Error,
    {
        let mut i: usize = 0;
        while i < self.issues.len()
            invariant
                i <= self.issues@.len(),
                forall|k: int| 0 <= k < i ==> #[trigger] self.issues@[k].severity != Severity::Error,
            decreases self.issues@.len() - i,
        {
            if self.issues[i].severity == Severity::Error {
                return true;
            }
            i = i + 1;
        }
        false
    }

    /// Whether the dataset matched the dictionary with nothing to report.
    pub fn is_clean(&self) -> (r: bool)
        ensures
            r == (self.issues@.len() == 0),
    {
        self.issues.len() == 0
    }

    /// The report as text: nothing for a clean report, otherwise a headline
    /// naming the table and one `severity: body` line per issue.
    pub fn to_text(&self) -> (r: String)
        ensures
            r@ == report_text(self.table@, self.issues@),
    {
        let mut out = String::new();
        if self.issues.len() == 0 {
            return out;
        }
        out.append("data does not match table \"");
        out.append(self.table.as_str());
        out.append("\":\n");
        let ghost head = out@;
        let mut i: usize = 0;
        while i < self.issues.len()
            invariant
                i <= self.issues@.len(),
                self.issues@.len() > 0,
                head == "data does not match table \""@ + self.table@ + "\":\n"@,
                out@ == head + issue_lines(self.issues@.take(i as int)),
            decreases self.issues@.len() - i,
        {
            let issue = &self.issues[i];
            proof {
                assert(self.issues@.take(i + 1).drop_last() =~= self.issues@.take(i as int));
            }
            out.append("  ");
            out.append(
                match issue.severity {
                    Severity::Error => "error",
                    Severity::Warning => "warning",
                },
            );
            out.append(": ");
            let b = issue.body();
            out.append(b.as_str());
            out.append("\n");
            i = i + 1;
        }
        assert(self.issues@.take(self.issues@.len() as int) =~= self.issues@);
        out
    }
}

/// One `  severity: body` line per issue.
pub open spec fn issue_lines(issues: Seq<ColumnIssue>) -> Seq<char>
    decreases issues.len(),
{
    if issues.len() == 0 {
        seq![]
    } else {
        let last = issues.last();
        issue_lines(issues.drop_last()) + "  "@ + crate::problem::severity_word(last.severity)
            + ": "@ + issue_body(last.column@, last.kind) + "\n"@
    }
}

pub open spec fn report_text(table: Seq<char>, issues: Seq<ColumnIssue>) -> Seq<char> {
    if issues.len() == 0 {
        seq![]
    } else {
        "data does not match table \""@ + table + "\":\n"@ + issue_lines(issues)
    }
}

} // verus!
