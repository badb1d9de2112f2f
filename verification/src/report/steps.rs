//! The steps of a run: one for every check the dictionary implies, each
//! `Unevaluated` until a check records a pass or a failure against its key,
//! and weighed against its table's row count once every check has run.

use vstd::prelude::*;

use quarto_source_map::SourceInfo;

use super::StepOutcome;
use crate::join_expr::dedup;
use crate::model::{Assertion, Column, Constraint, Table};
use crate::text::str_eq;
use crate::validate_spec::pk_names;
use crate::Level;

verus! {

/// One check applied to one target: a column, a set of key columns, an
/// assertion, or a table. Steps carry counts but never values.
#[derive(Debug)]
pub struct Step {
    pub id: usize,
    /// The code this step reports when its target is plainly wrong.
    pub code: &'static str,
    pub table: String,
    pub columns: Vec<String>,
    pub assertion: Option<String>,
    /// The author's own description of an assertion, when they wrote one.
    pub description: Option<String>,
    pub outcome: StepOutcome,
    pub row_count: Option<usize>,
    pub failed_row_count: Option<usize>,
    /// Whether a failure of this step blames every row of the table, which is
    /// only known once the table's rows have been counted.
    pub all_rows_fail: bool,
    /// Whether this step's failure is that the table's rows could never be
    /// counted, so it reports no counts at all.
    pub uncounted: bool,
    /// The declaration the step checks.
    pub span: Option<SourceInfo>,
    /// The nodes enclosing `span`.
    pub context: Vec<SourceInfo>,
}

/// What a step checks, within its table. The variants keep targets that share
/// a code apart.
#[derive(Debug, Clone)]
pub enum StepTarget {
    /// `M04`: the table itself.
    Table,
    /// `M01`: a declared column, by path segments.
    Column(Vec<String>),
    /// `D01`: a `required` or `primary_key` column.
    Required(String),
    /// `D02`: a `unique` column.
    Unique(String),
    /// `D02`: the primary key as a whole.
    PrimaryKey,
    /// `D04`: an `enum` column, by path segments.
    Enum(Vec<String>),
    /// `D05`: a single-column `foreign_key`.
    ForeignKey(String),
    /// `D07`: an `assert` expression, by its position among the table's.
    Assertion(usize),
}

/// A step target as plain values.
pub enum TargetV {
    Table,
    Column(Seq<Seq<char>>),
    Required(Seq<char>),
    Unique(Seq<char>),
    PrimaryKey,
    Enum(Seq<Seq<char>>),
    ForeignKey(Seq<char>),
    Assertion(usize),
}

#[derive(Debug, Clone)]
pub struct StepKey {
    pub table: String,
    pub target: StepTarget,
}

/// A step key as plain values.
pub struct KeyV {
    pub table: Seq<char>,
    pub target: TargetV,
}

pub open spec fn path_view(p: Seq<String>) -> Seq<Seq<char>> {
    p.map_values(|s: String| s@)
}

pub open spec fn target_view(t: StepTarget) -> TargetV {
    match t {
        StepTarget::Table => TargetV::Table,
        StepTarget::Column(p) => TargetV::Column(path_view(p@)),
        StepTarget::Required(c) => TargetV::Required(c@),
        StepTarget::Unique(c) => TargetV::Unique(c@),
        StepTarget::PrimaryKey => TargetV::PrimaryKey,
        StepTarget::Enum(p) => TargetV::Enum(path_view(p@)),
        StepTarget::ForeignKey(c) => TargetV::ForeignKey(c@),
        StepTarget::Assertion(i) => TargetV::Assertion(i),
    }
}

pub open spec fn key_view(k: StepKey) -> KeyV {
    KeyV { table: k.table@, target: target_view(k.target) }
}

impl StepKey {
    pub fn new(table: &str, target: StepTarget) -> (r: StepKey)
        ensures
            r.table@ == table@,
            r.target == target,
    {
        StepKey { table: table.to_owned(), target }
    }
}

/// How many rows a failing step blames.
#[derive(Debug, Clone, Copy)]
pub enum Failed {
    /// The rows the check counted.
    Rows(usize),
    /// Every row of the table: a single verdict about the whole table.
    AllRows,
    /// None that can be counted, because the table's rows never were.
    Uncounted,
}

/// The steps of one run, in the order the dictionary declares them, with the
/// key each was registered under and the row count of each table.
#[derive(Debug)]
pub struct Steps {
    pub steps: Vec<Step>,
    pub keys: Vec<StepKey>,
    pub row_counts: Vec<(String, usize)>,
}

fn paths_equal(a: &Vec<String>, b: &Vec<String>) -> (r: bool)
    ensures
        r == (path_view(a@) == path_view(b@)),
{
    if a.len() != b.len() {
        assert(path_view(a@).len() != path_view(b@).len());
        return false;
    }
    let mut i: usize = 0;
    while i < a.len()
        invariant
            a@.len() == b@.len(),
            i <= a@.len(),
            forall|k: int| 0 <= k < i ==> #[trigger] a@[k]@ == b@[k]@,
        decreases a@.len() - i,
    {
        if !str_eq(a[i].as_str(), b[i].as_str()) {
            assert(path_view(a@)[i as int] != path_view(b@)[i as int]);
            return false;
        }
        i = i + 1;
    }
    assert(path_view(a@) =~= path_view(b@));
    true
}

fn targets_equal(a: &StepTarget, b: &StepTarget) -> (r: bool)
    ensures
        r == (target_view(*a) == target_view(*b)),
{
    match (a, b) {
        (StepTarget::Table, StepTarget::Table) => true,
        (StepTarget::Column(x), StepTarget::Column(y)) => paths_equal(x, y),
        (StepTarget::Required(x), StepTarget::Required(y)) => str_eq(x.as_str(), y.as_str()),
        (StepTarget::Unique(x), StepTarget::Unique(y)) => str_eq(x.as_str(), y.as_str()),
        (StepTarget::PrimaryKey, StepTarget::PrimaryKey) => true,
        (StepTarget::Enum(x), StepTarget::Enum(y)) => paths_equal(x, y),
        (StepTarget::ForeignKey(x), StepTarget::ForeignKey(y)) => str_eq(x.as_str(), y.as_str()),
        (StepTarget::Assertion(x), StepTarget::Assertion(y)) => *x == *y,
        _ => false,
    }
}

fn keys_equal(a: &StepKey, b: &StepKey) -> (r: bool)
    ensures
        r == (key_view(*a) == key_view(*b)),
{
    str_eq(a.table.as_str(), b.table.as_str()) && targets_equal(&a.target, &b.target)
}

/// A step after its table's rows have been counted: a step with a verdict
/// that blames countable rows gets the row count, and one that blames every
/// row gets it as its failed count too.
pub open spec fn weighed(s: Step, rows: Option<usize>) -> Step {
    if s.outcome == StepOutcome::Unevaluated || s.uncounted || rows is None {
        s
    } else {
        Step {
            row_count: rows,
            failed_row_count: if s.all_rows_fail { rows } else { s.failed_row_count },
            ..s
        }
    }
}

impl Steps {
    pub open spec fn key_views(&self) -> Seq<KeyV> {
        self.keys@.map_values(|k: StepKey| key_view(k))
    }

    pub open spec fn step_seq(&self) -> Seq<Step> {
        self.steps@
    }

    /// The row count recorded for a table, if any.
    pub open spec fn rows_of(&self, table: Seq<char>) -> Option<usize> {
        if exists|i: int| 0 <= i < self.row_counts@.len() && self.row_counts@[i].0@ == table {
            Some(self.row_counts@[choose|i: int| 0 <= i < self.row_counts@.len() && self.row_counts@[i].0@ == table].1)
        } else {
            None
        }
    }

    /// Each step has a key, no two keys are equal, a step's id is its place in
    /// the order counted from one, its table is its key's, and no table has
    /// two row counts.
    pub open spec fn wf(&self) -> bool {
        &&& self.keys@.len() == self.steps@.len()
        &&& self.key_views().no_duplicates()
        &&& forall|i: int| 0 <= i < self.steps@.len() ==> (#[trigger] self.steps@[i]).id == i + 1
        &&& forall|i: int| 0 <= i < self.steps@.len() ==> (#[trigger] self.steps@[i]).table@ == self.keys@[i].table@
        &&& forall|i: int, j: int|
            0 <= i < j < self.row_counts@.len() ==> (#[trigger] self.row_counts@[i]).0@ != (
            #[trigger] self.row_counts@[j]).0@
    }

    /// No steps yet.
    pub fn new() -> (r: Steps)
        ensures
            r.wf(),
            r.step_seq().len() == 0,
    {
        Steps { steps: Vec::new(), keys: Vec::new(), row_counts: Vec::new() }
    }

    /// The steps, in order.
    pub fn items(&self) -> (r: &[Step])
        ensures
            r@ == self.step_seq(),
    {
        self.steps.as_slice()
    }

    /// Where the step registered under `key` stands.
    pub fn position(&self, key: &StepKey) -> (r: Option<usize>)
        requires
            self.wf(),
        ensures
            match r {
                Some(i) => i < self.keys@.len() && self.key_views()[i as int] == key_view(*key),
                None => !self.key_views().contains(key_view(*key)),
            },
    {
        let mut i: usize = 0;
        while i < self.keys.len()
            invariant
                i <= self.keys@.len(),
                forall|k: int| 0 <= k < i ==> self.key_views()[k] != key_view(*key),
            decreases self.keys@.len() - i,
        {
            if keys_equal(&self.keys[i], key) {
                return Some(i);
            }
            i = i + 1;
        }
        None
    }

    /// The id of the step registered under `key`.
    pub fn id(&self, key: &StepKey) -> (r: Option<usize>)
        requires
            self.wf(),
        ensures
            match r {
                Some(id) => 1 <= id <= self.keys@.len() && self.key_views()[id - 1] == key_view(*key),
                None => !self.key_views().contains(key_view(*key)),
            },
    {
        match self.position(key) {
            Some(at) => Some(self.steps[at].id),
            None => None,
        }
    }

    /// Register a step under `key`, `Unevaluated`, unless one already is.
    pub fn add(
        &mut self,
        key: StepKey,
        code: &'static str,
        columns: Vec<String>,
        assertion: Option<String>,
        description: Option<String>,
        span: Option<SourceInfo>,
        context: Vec<SourceInfo>,
    )
        requires
            old(self).wf(),
            old(self).step_seq().len() < usize::MAX,
        ensures
            final(self).wf(),
            final(self).row_counts == old(self).row_counts,
            old(self).key_views().contains(key_view(key)) ==> final(self).step_seq() == old(self).step_seq()
                && final(self).key_views() == old(self).key_views(),
            !old(self).key_views().contains(key_view(key)) ==> final(self).key_views() == old(self).key_views().push(
                key_view(key),
            ) && final(self).step_seq().len() == old(self).step_seq().len() + 1 && final(self).step_seq().take(
                old(self).step_seq().len() as int,
            ) == old(self).step_seq() && ({
                let s = final(self).step_seq().last();
                &&& s.id == old(self).step_seq().len() + 1
                &&& s.code == code
                &&& s.table@ == key.table@
                &&& s.columns == columns
                &&& s.assertion == assertion
                &&& s.description == description
                &&& s.outcome == StepOutcome::Unevaluated
                &&& s.row_count is None
                &&& s.failed_row_count is None
                &&& !s.all_rows_fail
                &&& !s.uncounted
                &&& s.span == span
                &&& s.context == context
            }),
    {
        if self.position(&key).is_some() {
            return;
        }
        let ghost before = self.key_views();
        let id = self.steps.len() + 1;
        let table = key.table.clone();
        self.keys.push(key);
        self.steps.push(
            Step {
                id,
                code,
                table,
                columns,
                assertion,
                description,
                outcome: StepOutcome::Unevaluated,
                row_count: None,
                failed_row_count: None,
                all_rows_fail: false,
                uncounted: false,
                span,
                context,
            },
        );
        proof {
            assert(self.key_views() =~= before.push(key_view(key)));
            assert(self.steps@.take(self.steps@.len() - 1) =~= old(self).steps@);
        }
    }

    /// Record that the step under `key` passed: nothing failed.
    pub fn pass(&mut self, key: &StepKey)
        requires
            old(self).wf(),
        ensures
            final(self).wf(),
            final(self).keys == old(self).keys,
            final(self).row_counts == old(self).row_counts,
            final(self).step_seq().len() == old(self).step_seq().len(),
            forall|i: int|
                0 <= i < old(self).step_seq().len() ==> #[trigger] final(self).step_seq()[i] == if old(
                    self,
                ).key_views()[i] == key_view(*key) {
                    Step { outcome: StepOutcome::Pass, failed_row_count: Some(0), ..old(self).step_seq()[i] }
                } else {
                    old(self).step_seq()[i]
                },
    {
        match self.position(key) {
            Some(at) => {
                self.steps[at].outcome = StepOutcome::Pass;
                self.steps[at].failed_row_count = Some(0);
                proof {
                    assert forall|i: int| 0 <= i < old(self).step_seq().len() && i != at implies old(self).key_views()[i]
                        != key_view(*key) by {
                        assert(old(self).key_views().no_duplicates());
                    }
                }
            },
            None => {},
        }
    }

    /// Record that the step under `key` failed, and how many rows it blames.
    pub fn fail(&mut self, key: &StepKey, failed: Failed)
        requires
            old(self).wf(),
        ensures
            final(self).wf(),
            final(self).keys == old(self).keys,
            final(self).row_counts == old(self).row_counts,
            final(self).step_seq().len() == old(self).step_seq().len(),
            forall|i: int|
                0 <= i < old(self).step_seq().len() ==> #[trigger] final(self).step_seq()[i] == if old(
                    self,
                ).key_views()[i] == key_view(*key) {
                    match failed {
                        Failed::Rows(n) => Step {
                            outcome: StepOutcome::Fail,
                            failed_row_count: Some(n),
                            ..old(self).step_seq()[i]
                        },
                        Failed::AllRows => Step {
                            outcome: StepOutcome::Fail,
                            all_rows_fail: true,
                            ..old(self).step_seq()[i]
                        },
                        Failed::Uncounted => Step {
                            outcome: StepOutcome::Fail,
                            uncounted: true,
                            ..old(self).step_seq()[i]
                        },
                    }
                } else {
                    old(self).step_seq()[i]
                },
    {
        match self.position(key) {
            Some(at) => {
                self.steps[at].outcome = StepOutcome::Fail;
                match failed {
                    Failed::Rows(rows) => {
                        self.steps[at].failed_row_count = Some(rows);
                    },
                    Failed::AllRows => {
                        self.steps[at].all_rows_fail = true;
                    },
                    Failed::Uncounted => {
                        self.steps[at].uncounted = true;
                    },
                }
                proof {
                    assert forall|i: int| 0 <= i < old(self).step_seq().len() && i != at implies old(self).key_views()[i]
                        != key_view(*key) by {
                        assert(old(self).key_views().no_duplicates());
                    }
                }
            },
            None => {},
        }
    }

    /// Record how many rows the steps of `table` are weighed against.
    pub fn set_row_count(&mut self, table: &str, rows: usize)
        requires
            old(self).wf(),
        ensures
            final(self).wf(),
            final(self).steps == old(self).steps,
            final(self).keys == old(self).keys,
            final(self).rows_of(table@) == Some(rows),
            forall|t: Seq<char>| t != table@ ==> #[trigger] final(self).rows_of(t) == old(self).rows_of(t),
    {
        let mut i: usize = 0;
        while i < self.row_counts.len()
            invariant
                i <= self.row_counts@.len(),
                self.row_counts == old(self).row_counts,
                self.steps == old(self).steps,
                self.keys == old(self).keys,
                old(self).wf(),
                forall|k: int| 0 <= k < i ==> (#[trigger] self.row_counts@[k]).0@ != table@,
            decreases self.row_counts@.len() - i,
        {
            if str_eq(self.row_counts[i].0.as_str(), table) {
                self.row_counts[i].1 = rows;
                proof {
                    assert(self.row_counts@[i as int].0@ == table@);
                    assert(self.rows_of(table@) == Some(rows)) by {
                        let k = choose|k: int| 0 <= k < self.row_counts@.len() && self.row_counts@[k].0@ == table@;
                        if k != i {
                            assert(old(self).row_counts@[k].0@ == old(self).row_counts@[i as int].0@);
                        }
                    }
                    assert forall|t: Seq<char>| t != table@ implies #[trigger] self.rows_of(t) == old(self).rows_of(t) by {
                        assert forall|k: int| 0 <= k < self.row_counts@.len() implies (self.row_counts@[k].0@ == t) == (old(
                            self,
                        ).row_counts@[k].0@ == t) by {}
                        if exists|k: int| 0 <= k < old(self).row_counts@.len() && old(self).row_counts@[k].0@ == t {
                            let k = choose|k: int| 0 <= k < old(self).row_counts@.len() && old(self).row_counts@[k].0@ == t;
                            assert(self.row_counts@[k].0@ == t);
                        }
                    }
                }
                return;
            }
            i = i + 1;
        }
        let ghost before = self.row_counts@;
        self.row_counts.push((table.to_owned(), rows));
        proof {
            let n = before.len() as int;
            assert(self.row_counts@[n].0@ == table@);
            assert(self.rows_of(table@) == Some(rows)) by {
                let k = choose|k: int| 0 <= k < self.row_counts@.len() && self.row_counts@[k].0@ == table@;
                if k != n {
                    assert(before[k].0@ != table@);
                }
            }
            assert forall|t: Seq<char>| t != table@ implies #[trigger] self.rows_of(t) == old(self).rows_of(t) by {
                if exists|k: int| 0 <= k < before.len() && before[k].0@ == t {
                    let k = choose|k: int| 0 <= k < before.len() && before[k].0@ == t;
                    assert(self.row_counts@[k] == before[k]);
                }
                if exists|k: int| 0 <= k < self.row_counts@.len() && self.row_counts@[k].0@ == t {
                    let k = choose|k: int| 0 <= k < self.row_counts@.len() && self.row_counts@[k].0@ == t;
                    assert(k != n);
                    assert(self.row_counts@[k] == before[k]);
                }
            }
        }
    }

    /// The row count recorded for `table`.
    fn row_count_of(&self, table: &str) -> (r: Option<usize>)
        requires
            self.wf(),
        ensures
            r == self.rows_of(table@),
    {
        let mut i: usize = 0;
        while i < self.row_counts.len()
            invariant
                i <= self.row_counts@.len(),
                self.wf(),
                forall|k: int| 0 <= k < i ==> (#[trigger] self.row_counts@[k]).0@ != table@,
            decreases self.row_counts@.len() - i,
        {
            if str_eq(self.row_counts[i].0.as_str(), table) {
                proof {
                    let k = choose|k: int| 0 <= k < self.row_counts@.len() && self.row_counts@[k].0@ == table@;
                    if k != i {
                        assert(self.row_counts@[k].0@ == self.row_counts@[i as int].0@);
                    }
                }
                return Some(self.row_counts[i].1);
            }
            i = i + 1;
        }
        None
    }

    /// Weigh every step against its table's rows, once every check has run. A
    /// step that reached no verdict is left without counts, and so is one
    /// whose table's rows could never be counted.
    pub fn finish(&mut self)
        requires
            old(self).wf(),
        ensures
            final(self).wf(),
            final(self).keys == old(self).keys,
            final(self).row_counts == old(self).row_counts,
            final(self).step_seq().len() == old(self).step_seq().len(),
            forall|i: int|
                0 <= i < old(self).step_seq().len() ==> #[trigger] final(self).step_seq()[i] == weighed(
                    old(self).step_seq()[i],
                    old(self).rows_of(old(self).step_seq()[i].table@),
                ),
    {
        let mut i: usize = 0;
        while i < self.steps.len()
            invariant
                i <= self.steps@.len(),
                self.steps@.len() == old(self).steps@.len(),
                self.keys == old(self).keys,
                self.row_counts == old(self).row_counts,
                self.wf(),
                forall|k: int|
                    0 <= k < i ==> #[trigger] self.steps@[k] == weighed(
                        old(self).steps@[k],
                        old(self).rows_of(old(self).steps@[k].table@),
                    ),
                forall|k: int| i <= k < self.steps@.len() ==> #[trigger] self.steps@[k] == old(self).steps@[k],
            decreases self.steps@.len() - i,
        {
            if !(self.steps[i].outcome == StepOutcome::Unevaluated || self.steps[i].uncounted) {
                match self.row_count_of(self.steps[i].table.as_str()) {
                    Some(rows) => {
                        self.steps[i].row_count = Some(rows);
                        if self.steps[i].all_rows_fail {
                            self.steps[i].failed_row_count = Some(rows);
                        }
                    },
                    None => {},
                }
            }
            i = i + 1;
        }
    }
}

// --- Dictionary order ------------------------------------------------------------------

/// Path segments joined by dots.
pub open spec fn dotted(path: Seq<Seq<char>>) -> Seq<char>
    decreases path.len(),
{
    if path.len() == 0 {
        seq![]
    } else if path.len() == 1 {
        path[0]
    } else {
        dotted(path.drop_last()) + "."@ + path.last()
    }
}

/// `path` joined by dots.
fn dotted_string(path: &Vec<String>) -> (r: String)
    ensures
        r@ == dotted(path_view(path@)),
{
    let ghost v = path_view(path@);
    let mut out = String::new();
    let mut i: usize = 0;
    while i < path.len()
        invariant
            i <= path@.len(),
            v == path_view(path@),
            out@ == dotted(v.take(i as int)),
        decreases path@.len() - i,
    {
        proof {
            let t = v.take(i + 1);
            assert(t.drop_last() =~= v.take(i as int));
            assert(t.last() == path@[i as int]@);
            if i == 0 {
                assert(t =~= seq![path@[0]@]);
                assert(v.take(0) =~= Seq::<Seq<char>>::empty());
            }
        }
        if i > 0 {
            out.append(".");
        }
        out.append(path[i].as_str());
        i = i + 1;
    }
    assert(v.take(i as int) =~= v);
    out
}

/// The fields of a column, or none.
pub open spec fn fields_of(col: Column) -> Seq<Column> {
    match col.fields {
        Some(fs) => fs@,
        None => seq![],
    }
}

/// Every column's dotted path, depth-first with each field under its parent.
pub open spec fn walk_paths(cols: Seq<Column>, prefix: Seq<Seq<char>>) -> Seq<Seq<char>>
    decreases cols,
{
    if cols.len() == 0 {
        seq![]
    } else {
        let last = cols.last();
        let path = prefix.push(last.name.value@);
        let nested = match last.fields {
            Some(fs) => {
                proof {
                    assert(decreases_to!(cols => cols[cols.len() - 1]));
                }
                walk_paths(fs@, path)
            },
            None => seq![],
        };
        walk_paths(cols.drop_last(), prefix) + seq![dotted(path)] + nested
    }
}

/// Where each column sits in the table, fields depth-first under their
/// parent: its place among the distinct dotted paths.
pub open spec fn column_order_spec(table: Table) -> Seq<Seq<char>> {
    dedup(walk_paths(table.columns@, seq![]))
}

/// Append `x` unless an equal string is already there.
fn push_new(out: &mut Vec<String>, x: String)
    ensures
        path_view(final(out)@) == (if path_view(old(out)@).contains(x@) {
            path_view(old(out)@)
        } else {
            path_view(old(out)@).push(x@)
        }),
{
    let ghost v = path_view(out@);
    let mut i: usize = 0;
    while i < out.len()
        invariant
            v == path_view(out@),
            i <= out@.len(),
            forall|k: int| 0 <= k < i ==> v[k] != x@,
        decreases out@.len() - i,
    {
        if str_eq(out[i].as_str(), x.as_str()) {
            assert(v[i as int] == x@);
            return;
        }
        i = i + 1;
    }
    assert(!v.contains(x@));
    out.push(x);
    assert(path_view(out@) =~= v.push(x@));
}

/// Append the dotted paths of `cols` under `path` to `out`, each unless
/// already there. `raw` is every path `out` has seen, repeats kept.
fn walk(cols: &Vec<Column>, path: &mut Vec<String>, out: &mut Vec<String>, Ghost(raw): Ghost<Seq<Seq<char>>>)
    requires
        path_view(old(out)@) == dedup(raw),
    ensures
        path_view(final(path)@) == path_view(old(path)@),
        path_view(final(out)@) == dedup(raw + walk_paths(cols@, path_view(old(path)@))),
    decreases cols@,
{
    let ghost prefix = path_view(path@);
    let ghost mut seen = raw;
    assert(cols@.take(0) =~= Seq::<Column>::empty());
    assert(raw + walk_paths(cols@.take(0), prefix) =~= raw);
    let mut i: usize = 0;
    while i < cols.len()
        invariant
            i <= cols@.len(),
            path_view(path@) == prefix,
            seen == raw + walk_paths(cols@.take(i as int), prefix),
            path_view(out@) == dedup(seen),
        decreases cols@.len() - i,
    {
        let col = &cols[i];
        proof {
            let t = cols@.take(i + 1);
            assert(t.drop_last() =~= cols@.take(i as int));
            assert(t.last() == cols@[i as int]);
        }
        path.push(col.name.value.clone());
        let ghost here = path_view(path@);
        assert(here =~= prefix.push(col.name.value@));
        let d = dotted_string(path);
        push_new(out, d);
        proof {
            assert((seen + seq![dotted(here)]).drop_last() =~= seen);
            seen = seen + seq![dotted(here)];
        }
        match &col.fields {
            Some(fs) => {
                proof {
                    assert(decreases_to!(cols@ => cols@[i as int]));
                }
                walk(fs, path, out, Ghost(seen));
                proof {
                    seen = seen + walk_paths(fs@, here);
                }
            },
            None => {
                assert(seen + Seq::<Seq<char>>::empty() =~= seen);
            },
        }
        let ghost pv = path@;
        assert(path_view(pv) == here);
        path.pop();
        assert(path@ =~= pv.drop_last());
        assert forall|k: int| 0 <= k < prefix.len() implies path_view(path@)[k] == prefix[k] by {
            assert(path_view(pv)[k] == here[k]);
        }
        assert(path_view(path@) =~= prefix);
        proof {
            assert(seen =~= raw + walk_paths(cols@.take(i + 1), prefix));
        }
        i = i + 1;
    }
    assert(cols@.take(i as int) =~= cols@);
}

/// Where each column sits in the table: the distinct dotted paths,
/// depth-first with each field under its parent.
pub fn column_order(table: &Table) -> (r: Vec<String>)
    ensures
        path_view(r@) == column_order_spec(*table),
{
    let mut out: Vec<String> = Vec::new();
    let mut path: Vec<String> = Vec::new();
    assert(path_view(out@) =~= dedup(Seq::<Seq<char>>::empty()));
    assert(path_view(path@) =~= Seq::<Seq<char>>::empty());
    walk(&table.columns, &mut path, &mut out, Ghost(Seq::<Seq<char>>::empty()));
    assert(Seq::<Seq<char>>::empty() + walk_paths(table.columns@, seq![]) =~= walk_paths(table.columns@, seq![]));
    out
}

// --- The steps a dictionary implies -----------------------------------------------------

/// A step yet to be registered: its key, the code it reports, the columns it
/// covers, an assertion's text and the author's description of it, the
/// declaration it checks, and the nodes enclosing that declaration.
#[derive(Debug)]
pub struct Pending {
    pub key: StepKey,
    pub code: &'static str,
    pub columns: Vec<String>,
    pub assertion: Option<String>,
    pub description: Option<String>,
    pub span: Option<SourceInfo>,
    pub context: Vec<SourceInfo>,
}

/// A pending step as plain values.
pub struct PendingV {
    pub key: KeyV,
    pub code: Seq<char>,
    pub columns: Seq<Seq<char>>,
    pub assertion: Option<Seq<char>>,
    pub description: Option<Seq<char>>,
}

pub open spec fn opt_view(s: Option<String>) -> Option<Seq<char>> {
    match s {
        Some(t) => Some(t@),
        None => None,
    }
}

pub open spec fn pending_view(p: Pending) -> PendingV {
    PendingV {
        key: key_view(p.key),
        code: p.code@,
        columns: path_view(p.columns@),
        assertion: opt_view(p.assertion),
        description: opt_view(p.description),
    }
}

pub open spec fn pendings_view(s: Seq<Pending>) -> Seq<PendingV> {
    s.map_values(|p: Pending| pending_view(p))
}

/// A step about columns only, with no assertion.
pub open spec fn plain(table: Seq<char>, target: TargetV, code: Seq<char>, columns: Seq<Seq<char>>) -> PendingV {
    PendingV { key: KeyV { table, target }, code, columns, assertion: None, description: None }
}

/// The data-level steps a top-level column's constraints imply.
pub open spec fn constraint_steps(table: Seq<char>, col: Column, d: Seq<char>) -> Seq<PendingV> {
    (if col.spec_has(Constraint::Required) || col.spec_has(Constraint::PrimaryKey) {
        seq![plain(table, TargetV::Required(d), "D01"@, seq![d])]
    } else {
        seq![]
    }) + (if col.spec_has(Constraint::Unique) {
        seq![plain(table, TargetV::Unique(d), "D02"@, seq![d])]
    } else {
        seq![]
    }) + (if col.spec_has(Constraint::ForeignKey) {
        seq![plain(table, TargetV::ForeignKey(d), "D05"@, seq![d])]
    } else {
        seq![]
    })
}

/// Whether a column's values are enum categories.
pub open spec fn enum_column(col: Column) -> bool {
    col.col_type matches Some(t) && crate::text::innermost(t.value@) == "enum"@
}

/// The steps of one column, at `path`, and, recursively, of its fields: a
/// field is a declared column too, named by its dotted path. Only a
/// top-level column carries constraints, so only it gets the
/// constraint-driven steps.
pub open spec fn column_pending(table: Table, col: Column, level: Level, path: Seq<Seq<char>>) -> Seq<PendingV>
    decreases col, 1int,
{
    let name = table.name.value@;
    let d = dotted(path);
    let own = seq![plain(name, TargetV::Column(path), "M01"@, seq![d])] + if level == Level::Data {
        (if path.len() == 1 {
            constraint_steps(name, col, d)
        } else {
            seq![]
        }) + (if enum_column(col) && col.values is Some {
            seq![plain(name, TargetV::Enum(path), "D04"@, seq![d])]
        } else {
            seq![]
        })
    } else {
        seq![]
    };
    own + match col.fields {
        Some(fs) => fields_pending(table, fs@, level, path),
        None => seq![],
    }
}

/// The steps of fields, each at its own path under `path`.
pub open spec fn fields_pending(table: Table, fs: Seq<Column>, level: Level, path: Seq<Seq<char>>) -> Seq<PendingV>
    decreases fs, 0int,
{
    if fs.len() == 0 {
        seq![]
    } else {
        fields_pending(table, fs.drop_last(), level, path) + column_pending(
            table,
            fs.last(),
            level,
            path.push(fs.last().name.value@),
        )
    }
}

/// A copy of a path.
fn copy_path(path: &Vec<String>) -> (r: Vec<String>)
    ensures
        path_view(r@) == path_view(path@),
{
    let mut out: Vec<String> = Vec::new();
    let mut i: usize = 0;
    while i < path.len()
        invariant
            i <= path@.len(),
            out@.len() == i,
            forall|k: int| 0 <= k < i ==> #[trigger] out@[k]@ == path@[k]@,
        decreases path@.len() - i,
    {
        let c = path[i].clone();
        out.push(c);
        i = i + 1;
    }
    assert(path_view(out@) =~= path_view(path@));
    out
}

fn one(s: &String) -> (r: Vec<String>)
    ensures
        path_view(r@) == seq![s@],
{
    let mut v: Vec<String> = Vec::new();
    v.push(s.clone());
    assert(path_view(v@) =~= seq![s@]);
    v
}

fn clone_span(s: Option<&SourceInfo>) -> (r: Option<SourceInfo>) {
    match s {
        Some(x) => Some(x.clone()),
        None => None,
    }
}

fn two_spans(a: &SourceInfo, b: &SourceInfo) -> (r: Vec<SourceInfo>) {
    let mut v: Vec<SourceInfo> = Vec::new();
    v.push(a.clone());
    v.push(b.clone());
    v
}

fn push_pending(out: &mut Vec<Pending>, p: Pending)
    ensures
        pendings_view(final(out)@) == pendings_view(old(out)@).push(pending_view(p)),
{
    let ghost before = pendings_view(out@);
    out.push(p);
    assert(pendings_view(out@) =~= before.push(pending_view(p)));
}

/// Append the steps of `col`, at `path`, and of its fields.
fn column_steps(table: &Table, col: &Column, level: Level, path: &mut Vec<String>, out: &mut Vec<Pending>)
    ensures
        path_view(final(path)@) == path_view(old(path)@),
        pendings_view(final(out)@) == pendings_view(old(out)@) + column_pending(
            *table,
            *col,
            level,
            path_view(old(path)@),
        ),
    decreases col,
{
    let ghost base = pendings_view(out@);
    let ghost p0 = path_view(path@);
    let name = table.name.value.as_str();
    let d = dotted_string(path);
    let mut ctx: Vec<SourceInfo> = Vec::new();
    ctx.push(table.name.span.clone());
    push_pending(
        out,
        Pending {
            key: StepKey::new(name, StepTarget::Column(copy_path(path))),
            code: "M01",
            columns: one(&d),
            assertion: None,
            description: None,
            span: Some(col.name.span.clone()),
            context: ctx,
        },
    );
    if level == Level::Data {
        if path.len() == 1 {
            if col.is_required_implied() {
                let mut cs: Vec<Constraint> = Vec::new();
                cs.push(Constraint::Required);
                cs.push(Constraint::PrimaryKey);
                push_pending(
                    out,
                    Pending {
                        key: StepKey::new(name, StepTarget::Required(d.clone())),
                        code: "D01",
                        columns: one(&d),
                        assertion: None,
                        description: None,
                        span: clone_span(col.constraint_span(cs.as_slice())),
                        context: two_spans(&table.name.span, &col.name.span),
                    },
                );
            }
            if col.has(Constraint::Unique) {
                let mut cs: Vec<Constraint> = Vec::new();
                cs.push(Constraint::Unique);
                push_pending(
                    out,
                    Pending {
                        key: StepKey::new(name, StepTarget::Unique(d.clone())),
                        code: "D02",
                        columns: one(&d),
                        assertion: None,
                        description: None,
                        span: clone_span(col.constraint_span(cs.as_slice())),
                        context: two_spans(&table.name.span, &col.name.span),
                    },
                );
            }
            if col.has(Constraint::ForeignKey) {
                let mut cs: Vec<Constraint> = Vec::new();
                cs.push(Constraint::ForeignKey);
                push_pending(
                    out,
                    Pending {
                        key: StepKey::new(name, StepTarget::ForeignKey(d.clone())),
                        code: "D05",
                        columns: one(&d),
                        assertion: None,
                        description: None,
                        span: clone_span(col.constraint_span(cs.as_slice())),
                        context: two_spans(&table.name.span, &col.name.span),
                    },
                );
            }
        }
        if col.is_enum() && col.values.is_some() {
            let span = match &col.values {
                Some(v) => Some(v.span.clone()),
                None => None,
            };
            push_pending(
                out,
                Pending {
                    key: StepKey::new(name, StepTarget::Enum(copy_path(path))),
                    code: "D04",
                    columns: one(&d),
                    assertion: None,
                    description: None,
                    span,
                    context: two_spans(&table.name.span, &col.name.span),
                },
            );
        }
    }
    let ghost head = pendings_view(out@);
    proof {
        let own = head.subrange(base.len() as int, head.len() as int);
        assert(head =~= base + own);
    }
    match &col.fields {
        Some(fs) => {
            let ghost mid = pendings_view(out@);
            let mut i: usize = 0;
            assert(fs@.take(0) =~= Seq::<Column>::empty());
            assert(mid + fields_pending(*table, fs@.take(0), level, p0) =~= mid);
            while i < fs.len()
                invariant
                    i <= fs@.len(),
                    col.fields == Some(*fs),
                    path_view(path@) == p0,
                    pendings_view(out@) == mid + fields_pending(*table, fs@.take(i as int), level, p0),
                decreases fs@.len() - i,
            {
                let f = &fs[i];
                proof {
                    let t = fs@.take(i + 1);
                    assert(t.drop_last() =~= fs@.take(i as int));
                    assert(t.last() == fs@[i as int]);
                }
                path.push(f.name.value.clone());
                assert(path_view(path@) =~= p0.push(f.name.value@));
                proof {
                    assert(col.fields == Some(*fs));
                    assert(decreases_to!(*col => col.fields));
                    assert(decreases_to!(col.fields => col.fields->0));
                    assert(decreases_to!(*fs => fs@));
                    assert(decreases_to!(fs@ => fs@[i as int]));
                }
                column_steps(table, f, level, path, out);
                let ghost pv = path@;
                path.pop();
                assert(path@ =~= pv.drop_last());
                assert forall|k: int| 0 <= k < p0.len() implies path_view(path@)[k] == p0[k] by {
                    assert(path_view(pv)[k] == p0.push(f.name.value@)[k]);
                }
                assert(path_view(path@) =~= p0);
                i = i + 1;
            }
            assert(fs@.take(i as int) =~= fs@);
        },
        None => {},
    }
}

/// The steps of a table's own columns, each at its one-segment path.
pub open spec fn top_pending(table: Table, cols: Seq<Column>, level: Level) -> Seq<PendingV>
    decreases cols.len(),
{
    if cols.len() == 0 {
        seq![]
    } else {
        top_pending(table, cols.drop_last(), level) + column_pending(
            table,
            cols.last(),
            level,
            seq![cols.last().name.value@],
        )
    }
}

/// The `assert` expressions of a table in the order the checks evaluate
/// them: the table's own constraints, then each column's.
pub open spec fn assertion_list(table: Table) -> Seq<(Assertion, Option<Column>)> {
    table.constraints@.map_values(|a: Assertion| (a, None::<Column>)) + column_assertions(table.columns@)
}

pub open spec fn column_assertions(cols: Seq<Column>) -> Seq<(Assertion, Option<Column>)>
    decreases cols.len(),
{
    if cols.len() == 0 {
        seq![]
    } else {
        column_assertions(cols.drop_last()) + cols.last().assertions@.map_values(
            |a: Assertion| (a, Some(cols.last())),
        )
    }
}

/// The author's description of the assertion at `position`, if it has one.
pub open spec fn description_at(table: Table, position: int) -> Option<Seq<char>> {
    if 0 <= position < assertion_list(table).len() {
        match assertion_list(table)[position].0.description {
            Some(d) => Some(d.value@),
            None => None,
        }
    } else {
        None
    }
}

/// The steps of the table's assertions, each given as its text and the
/// columns it reads, by position.
pub open spec fn assertion_pending(table: Table, assertions: Seq<(Seq<char>, Seq<Seq<char>>)>) -> Seq<PendingV>
    decreases assertions.len(),
{
    if assertions.len() == 0 {
        seq![]
    } else {
        let at = assertions.len() - 1;
        assertion_pending(table, assertions.drop_last()) + seq![PendingV {
            key: KeyV { table: table.name.value@, target: TargetV::Assertion(at as usize) },
            code: "D07"@,
            columns: assertions.last().1,
            assertion: Some(assertions.last().0),
            description: description_at(table, at),
        }]
    }
}

/// Every step the dictionary implies for a table, in declaration order: the
/// table's own, its columns', and, for a data-level run, the primary key's
/// and its assertions'.
pub open spec fn pending_of(table: Table, level: Level, assertions: Seq<(Seq<char>, Seq<Seq<char>>)>) -> Seq<
    PendingV,
> {
    let name = table.name.value@;
    let pk = pk_names(table.columns@);
    seq![plain(name, TargetV::Table, "M04"@, seq![])] + top_pending(table, table.columns@, level) + if level
        == Level::Data {
        (if pk.len() > 0 {
            seq![plain(name, TargetV::PrimaryKey, "D02"@, pk)]
        } else {
            seq![]
        }) + assertion_pending(table, assertions)
    } else {
        seq![]
    }
}

/// Where `c` first stands in `order`.
pub open spec fn place_in(order: Seq<Seq<char>>, c: Seq<char>, i: int) -> Option<int>
    decreases order.len() - i,
{
    if i < 0 || i >= order.len() {
        None
    } else if order[i] == c {
        Some(i)
    } else {
        place_in(order, c, i + 1)
    }
}

/// Where a step sorts: the table's own step first, then each step under the
/// first column it covers, and one about no known column last.
pub open spec fn rank(p: PendingV, order: Seq<Seq<char>>) -> int {
    if p.key.target is Table {
        0
    } else if p.columns.len() > 0 && place_in(order, p.columns[0], 0) is Some {
        place_in(order, p.columns[0], 0)->0 + 1
    } else {
        usize::MAX as int
    }
}

/// Code order: lexicographic by character.
pub open spec fn code_le(a: Seq<char>, b: Seq<char>) -> bool
    decreases a.len(),
{
    if a.len() == 0 {
        true
    } else if b.len() == 0 {
        false
    } else if a[0] != b[0] {
        (a[0] as u32) < (b[0] as u32)
    } else {
        code_le(a.drop_first(), b.drop_first())
    }
}

pub open spec fn data_code(c: Seq<char>) -> bool {
    c.len() > 0 && c[0] == 'D'
}

/// Whether `a` sorts no later than `b`: by rank, then the metadata codes
/// before the data ones, then by code.
pub open spec fn sorts_before(a: PendingV, b: PendingV, order: Seq<Seq<char>>) -> bool {
    rank(a, order) < rank(b, order) || (rank(a, order) == rank(b, order) && ((!data_code(a.code) && data_code(
        b.code,
    )) || (data_code(a.code) == data_code(b.code) && code_le(a.code, b.code))))
}

/// `x` inserted into `sorted` after every item that sorts no later.
pub open spec fn insert_sorted(sorted: Seq<PendingV>, x: PendingV, order: Seq<Seq<char>>) -> Seq<PendingV>
    decreases sorted.len(),
{
    if sorted.len() == 0 {
        seq![x]
    } else if sorts_before(sorted.last(), x, order) {
        sorted.push(x)
    } else {
        insert_sorted(sorted.drop_last(), x, order).push(sorted.last())
    }
}

/// `s` in sort order, items that sort together keeping their order: the
/// stable sort.
pub open spec fn stable_sorted(s: Seq<PendingV>, order: Seq<Seq<char>>) -> Seq<PendingV>
    decreases s.len(),
{
    if s.len() == 0 {
        seq![]
    } else {
        insert_sorted(stable_sorted(s.drop_last(), order), s.last(), order)
    }
}

/// The items that become new steps: each whose key is neither registered
/// already nor an earlier item's.
pub open spec fn fresh(keys: Seq<KeyV>, items: Seq<PendingV>) -> Seq<PendingV>
    decreases items.len(),
{
    if items.len() == 0 {
        seq![]
    } else {
        let f = fresh(keys, items.drop_last());
        if keys.contains(items.last().key) || f.map_values(|p: PendingV| p.key).contains(items.last().key) {
            f
        } else {
            f.push(items.last())
        }
    }
}

// --- Building the list ---------------------------------------------------------------

pub open spec fn assertions_view(a: Seq<(String, Vec<String>)>) -> Seq<(Seq<char>, Seq<Seq<char>>)> {
    a.map_values(|x: (String, Vec<String>)| (x.0@, path_view(x.1@)))
}

pub open spec fn pair_view(x: (&Assertion, Option<&Column>)) -> (Assertion, Option<Column>) {
    (*x.0, match x.1 {
        Some(c) => Some(*c),
        None => None,
    })
}

pub open spec fn pairs_view(s: Seq<(&Assertion, Option<&Column>)>) -> Seq<(Assertion, Option<Column>)> {
    s.map_values(|x: (&Assertion, Option<&Column>)| pair_view(x))
}

/// The `assert` expressions of a table, in the order the checks evaluate
/// them: the table's own constraints, then each column's.
pub fn table_assertions(table: &Table) -> (r: Vec<(&Assertion, Option<&Column>)>)
    ensures
        pairs_view(r@) == assertion_list(*table),
{
    let mut out: Vec<(&Assertion, Option<&Column>)> = Vec::new();
    let mut i: usize = 0;
    while i < table.constraints.len()
        invariant
            i <= table.constraints@.len(),
            out@.len() == i,
            pairs_view(out@) == table.constraints@.take(i as int).map_values(|a: Assertion| (a, None::<Column>)),
        decreases table.constraints@.len() - i,
    {
        let ghost before = pairs_view(out@);
        out.push((&table.constraints[i], None));
        proof {
            let want = table.constraints@.take(i + 1).map_values(|a: Assertion| (a, None::<Column>));
            assert(pairs_view(out@).len() == want.len());
            assert forall|k: int| 0 <= k < want.len() implies #[trigger] pairs_view(out@)[k] == want[k] by {
                if k < i {
                    assert(pairs_view(out@)[k] == before[k]);
                }
            }
            assert(pairs_view(out@) =~= want);
        }
        i = i + 1;
    }
    assert(table.constraints@.take(i as int) =~= table.constraints@);
    let ghost head = pairs_view(out@);
    let mut k: usize = 0;
    assert(column_assertions(table.columns@.take(0)) =~= Seq::<(Assertion, Option<Column>)>::empty());
    assert(head + column_assertions(table.columns@.take(0)) =~= head);
    while k < table.columns.len()
        invariant
            k <= table.columns@.len(),
            head == table.constraints@.map_values(|a: Assertion| (a, None::<Column>)),
            pairs_view(out@) == head + column_assertions(table.columns@.take(k as int)),
        decreases table.columns@.len() - k,
    {
        let col = &table.columns[k];
        proof {
            let t = table.columns@.take(k + 1);
            assert(t.drop_last() =~= table.columns@.take(k as int));
            assert(t.last() == table.columns@[k as int]);
        }
        let ghost mid = pairs_view(out@);
        assert(out@.len() == mid.len());
        let mut j: usize = 0;
        assert(mid + col.assertions@.take(0).map_values(|a: Assertion| (a, Some(*col))) =~= mid);
        while j < col.assertions.len()
            invariant
                j <= col.assertions@.len(),
                out@.len() == mid.len() + j,
                pairs_view(out@) == mid + col.assertions@.take(j as int).map_values(|a: Assertion| (a, Some(*col))),
            decreases col.assertions@.len() - j,
        {
            let ghost before = pairs_view(out@);
            out.push((&col.assertions[j], Some(col)));
            proof {
                let want = mid + col.assertions@.take(j + 1).map_values(|a: Assertion| (a, Some(*col)));
                assert(pairs_view(out@).len() == want.len());
                assert forall|m: int| 0 <= m < want.len() implies #[trigger] pairs_view(out@)[m] == want[m] by {
                    if m < before.len() {
                        assert(pairs_view(out@)[m] == before[m]);
                    }
                }
                assert(pairs_view(out@) =~= want);
            }
            j = j + 1;
        }
        assert(col.assertions@.take(j as int) =~= col.assertions@);
        assert(pairs_view(out@) =~= head + column_assertions(table.columns@.take(k + 1)));
        k = k + 1;
    }
    assert(table.columns@.take(k as int) =~= table.columns@);
    out
}

/// The table, the column when there is one, the assertion's description
/// line when it has one, then its text: where an assertion is shown.
fn assertion_context(table: &Table, col: Option<&Column>, a: &Assertion) -> (r: Vec<SourceInfo>) {
    let mut spans: Vec<SourceInfo> = Vec::new();
    spans.push(table.name.span.clone());
    match col {
        Some(c) => spans.push(c.name.span.clone()),
        None => {},
    }
    match &a.description {
        Some(d) => spans.push(d.span.clone()),
        None => {},
    }
    spans.push(a.text.span.clone());
    spans
}

/// Every step the dictionary implies for `table`, in declaration order.
fn pending_for(table: &Table, level: Level, assertions: &[(String, Vec<String>)]) -> (r: Vec<Pending>)
    ensures
        pendings_view(r@) == pending_of(*table, level, assertions_view(assertions@)),
{
    let name = table.name.value.as_str();
    let mut out: Vec<Pending> = Vec::new();
    push_pending(
        &mut out,
        Pending {
            key: StepKey::new(name, StepTarget::Table),
            code: "M04",
            columns: Vec::new(),
            assertion: None,
            description: None,
            span: Some(table.name.span.clone()),
            context: Vec::new(),
        },
    );
    let ghost head = pendings_view(out@);
    assert(head[0].columns =~= Seq::<Seq<char>>::empty());
    assert(head =~= seq![plain(table.name.value@, TargetV::Table, "M04"@, seq![])]);
    let cols = &table.columns;
    let mut k: usize = 0;
    assert(cols@.take(0) =~= Seq::<Column>::empty());
    assert(head + top_pending(*table, cols@.take(0), level) =~= head);
    while k < cols.len()
        invariant
            k <= cols@.len(),
            cols == &table.columns,
            pendings_view(out@) == head + top_pending(*table, cols@.take(k as int), level),
        decreases cols@.len() - k,
    {
        let col = &cols[k];
        proof {
            let t = cols@.take(k + 1);
            assert(t.drop_last() =~= cols@.take(k as int));
            assert(t.last() == cols@[k as int]);
        }
        let mut path: Vec<String> = Vec::new();
        path.push(col.name.value.clone());
        assert(path_view(path@) =~= seq![col.name.value@]);
        column_steps(table, col, level, &mut path, &mut out);
        assert(pendings_view(out@) =~= head + top_pending(*table, cols@.take(k + 1), level));
        k = k + 1;
    }
    assert(cols@.take(k as int) =~= cols@);
    if level != Level::Data {
        assert(pendings_view(out@) =~= pending_of(*table, level, assertions_view(assertions@)));
        return out;
    }
    let ghost body = pendings_view(out@);
    let mut key_columns: Vec<String> = Vec::new();
    let mut key_col: Option<&Column> = None;
    let mut i: usize = 0;
    assert(path_view(key_columns@) =~= pk_names(cols@.take(0)));
    while i < cols.len()
        invariant
            i <= cols@.len(),
            cols == &table.columns,
            path_view(key_columns@) == pk_names(cols@.take(i as int)),
        decreases cols@.len() - i,
    {
        proof {
            let t = cols@.take(i + 1);
            assert(t.drop_last() =~= cols@.take(i as int));
            assert(t.last() == cols@[i as int]);
        }
        if cols[i].has(Constraint::PrimaryKey) {
            let ghost before = path_view(key_columns@);
            key_columns.push(cols[i].name.value.clone());
            assert(path_view(key_columns@) =~= before.push(cols@[i as int].name.value@));
            if key_col.is_none() {
                key_col = Some(&cols[i]);
            }
        }
        i = i + 1;
    }
    assert(cols@.take(i as int) =~= cols@);
    if key_columns.len() > 0 {
        let (span, context) = match key_col {
            Some(c) => {
                let mut cs: Vec<Constraint> = Vec::new();
                cs.push(Constraint::PrimaryKey);
                (clone_span(c.constraint_span(cs.as_slice())), two_spans(&table.name.span, &c.name.span))
            },
            None => (None, Vec::new()),
        };
        push_pending(
            &mut out,
            Pending {
                key: StepKey::new(name, StepTarget::PrimaryKey),
                code: "D02",
                columns: key_columns,
                assertion: None,
                description: None,
                span,
                context,
            },
        );
    }
    let ghost with_key = pendings_view(out@);
    let targets = table_assertions(table);
    let ghost av = assertions_view(assertions@);
    let mut position: usize = 0;
    assert(av.take(0) =~= Seq::<(Seq<char>, Seq<Seq<char>>)>::empty());
    assert(with_key + assertion_pending(*table, av.take(0)) =~= with_key);
    while position < assertions.len()
        invariant
            position <= assertions@.len(),
            name@ == table.name.value@,
            av == assertions_view(assertions@),
            pairs_view(targets@) == assertion_list(*table),
            pendings_view(out@) == with_key + assertion_pending(*table, av.take(position as int)),
        decreases assertions@.len() - position,
    {
        proof {
            let t = av.take(position + 1);
            assert(t.drop_last() =~= av.take(position as int));
            assert(t.last() == av[position as int]);
        }
        let (text, columns) = &assertions[position];
        assert(pairs_view(targets@).len() == targets@.len());
        let ghost want = assertion_pending(*table, av.take(position + 1)).last();
        let (description, span, context) = if position < targets.len() {
            let (a, col) = targets[position];
            assert(pair_view(targets@[position as int]) == assertion_list(*table)[position as int]);
            let description = match &a.description {
                Some(d) => Some(d.value.clone()),
                None => None,
            };
            (description, Some(a.text.span.clone()), assertion_context(table, col, a))
        } else {
            (None, None, Vec::new())
        };
        push_pending(
            &mut out,
            Pending {
                key: StepKey::new(name, StepTarget::Assertion(position)),
                code: "D07",
                columns: copy_path(columns),
                assertion: Some(text.clone()),
                description,
                span,
                context,
            },
        );
        proof {
            let got = pendings_view(out@).last();
            assert(av.take(position + 1).len() == position + 1);
            assert(got.key == want.key);
            assert(got.columns == want.columns);
            assert(got.assertion == want.assertion);
            assert(got.description == want.description);
        }
        assert(pendings_view(out@) =~= with_key + assertion_pending(*table, av.take(position + 1)));
        position = position + 1;
    }
    assert(av.take(position as int) =~= av);
    assert(pendings_view(out@) =~= pending_of(*table, level, av));
    out
}

// --- Ordering ---------------------------------------------------------------------------

/// Where `c` first stands in `order`.
fn place_of(order: &Vec<String>, c: &str) -> (r: Option<usize>)
    ensures
        match r {
            Some(i) => i < order@.len() && place_in(path_view(order@), c@, 0) == Some(i as int),
            None => place_in(path_view(order@), c@, 0) is None,
        },
{
    let ghost v = path_view(order@);
    let mut i: usize = 0;
    while i < order.len()
        invariant
            i <= order@.len(),
            v == path_view(order@),
            place_in(v, c@, 0) == place_in(v, c@, i as int),
        decreases order@.len() - i,
    {
        assert(v[i as int] == order@[i as int]@);
        if str_eq(order[i].as_str(), c) {
            return Some(i);
        }
        i = i + 1;
    }
    None
}

/// Where a step sorts.
fn rank_of(p: &Pending, order: &Vec<String>) -> (r: usize)
    ensures
        r as int == rank(pending_view(*p), path_view(order@)),
{
    match &p.key.target {
        StepTarget::Table => 0,
        _ => {
            if p.columns.len() > 0 {
                assert(pending_view(*p).columns[0] == p.columns@[0]@);
                let n = order.len();
                match place_of(order, p.columns[0].as_str()) {
                    Some(at) => at + 1,
                    None => usize::MAX,
                }
            } else {
                usize::MAX
            }
        },
    }
}

/// Code order: lexicographic by character.
fn code_le_exec(a: &str, b: &str) -> (r: bool)
    ensures
        r == code_le(a@, b@),
{
    let x = crate::text::chars_of(a);
    let y = crate::text::chars_of(b);
    let mut i: usize = 0;
    assert(a@.skip(0) =~= a@);
    assert(b@.skip(0) =~= b@);
    loop
        invariant
            x@ == a@,
            y@ == b@,
            i <= x@.len(),
            i <= y@.len(),
            code_le(a@, b@) == code_le(a@.skip(i as int), b@.skip(i as int)),
        decreases x@.len() - i,
    {
        if i == x.len() {
            return true;
        }
        if i == y.len() {
            return false;
        }
        assert(a@.skip(i as int)[0] == x@[i as int]);
        assert(b@.skip(i as int)[0] == y@[i as int]);
        if x[i] != y[i] {
            return (x[i] as u32) < (y[i] as u32);
        }
        assert(a@.skip(i as int).drop_first() =~= a@.skip(i + 1));
        assert(b@.skip(i as int).drop_first() =~= b@.skip(i + 1));
        i = i + 1;
    }
}

fn is_data_code(c: &str) -> (r: bool)
    ensures
        r == data_code(c@),
{
    let x = crate::text::chars_of(c);
    x.len() > 0 && x[0] == 'D'
}

/// Whether `a` sorts no later than `b`.
fn sorts_before_exec(a: &Pending, b: &Pending, order: &Vec<String>) -> (r: bool)
    ensures
        r == sorts_before(pending_view(*a), pending_view(*b), path_view(order@)),
{
    let ra = rank_of(a, order);
    let rb = rank_of(b, order);
    let da = is_data_code(a.code);
    let db = is_data_code(b.code);
    ra < rb || (ra == rb && ((!da && db) || (da == db && code_le_exec(a.code, b.code))))
}

proof fn lemma_insert_at(s: Seq<PendingV>, x: PendingV, order: Seq<Seq<char>>, pos: int)
    requires
        0 <= pos <= s.len(),
        forall|j: int| pos <= j < s.len() ==> !sorts_before(#[trigger] s[j], x, order),
        pos == 0 || sorts_before(s[pos - 1], x, order),
    ensures
        insert_sorted(s, x, order) == s.take(pos) + seq![x] + s.skip(pos),
    decreases s.len(),
{
    if pos == s.len() {
        if s.len() == 0 {
            assert(s.take(pos) + seq![x] + s.skip(pos) =~= seq![x]);
        } else {
            assert(s.take(pos) + seq![x] + s.skip(pos) =~= s.push(x));
        }
    } else {
        let t = s.drop_last();
        assert(!sorts_before(s[s.len() - 1], x, order));
        assert forall|j: int| pos <= j < t.len() implies !sorts_before(#[trigger] t[j], x, order) by {
            assert(t[j] == s[j]);
        }
        if pos > 0 {
            assert(t[pos - 1] == s[pos - 1]);
        }
        lemma_insert_at(t, x, order, pos);
        assert(t.take(pos) + seq![x] + t.skip(pos) + seq![s.last()] =~= s.take(pos) + seq![x] + s.skip(pos));
    }
}

proof fn lemma_insert_len(s: Seq<PendingV>, x: PendingV, order: Seq<Seq<char>>)
    ensures
        insert_sorted(s, x, order).len() == s.len() + 1,
    decreases s.len(),
{
    if s.len() > 0 && !sorts_before(s.last(), x, order) {
        lemma_insert_len(s.drop_last(), x, order);
    }
}

proof fn lemma_sorted_len(s: Seq<PendingV>, order: Seq<Seq<char>>)
    ensures
        stable_sorted(s, order).len() == s.len(),
    decreases s.len(),
{
    if s.len() > 0 {
        lemma_sorted_len(s.drop_last(), order);
        lemma_insert_len(stable_sorted(s.drop_last(), order), s.last(), order);
    }
}

/// `items` in sort order, items that sort together keeping their order.
fn sort_pending(items: Vec<Pending>, order: &Vec<String>) -> (r: Vec<Pending>)
    ensures
        pendings_view(r@) == stable_sorted(pendings_view(items@), path_view(order@)),
{
    let ghost orig = pendings_view(items@);
    let ghost ov = path_view(order@);
    let mut rest = items;
    let mut sorted: Vec<Pending> = Vec::new();
    let ghost mut k: int = 0;
    assert(orig.skip(0) =~= orig);
    assert(orig.take(0) =~= Seq::<PendingV>::empty());
    while rest.len() > 0
        invariant
            0 <= k <= orig.len(),
            ov == path_view(order@),
            pendings_view(rest@) == orig.skip(k),
            pendings_view(sorted@) == stable_sorted(orig.take(k), ov),
        decreases rest@.len(),
    {
        let ghost r0 = rest@;
        assert(pendings_view(r0).len() == r0.len());
        assert(k < orig.len());
        let x = rest.remove(0);
        let ghost xv = pending_view(x);
        proof {
            assert(x == r0[0]);
            assert(pendings_view(r0)[0] == xv);
            assert(orig.skip(k)[0] == xv);
            assert(rest@ =~= r0.skip(1));
            assert forall|j: int| 0 <= j < rest@.len() implies #[trigger] pendings_view(rest@)[j] == orig.skip(k + 1)[j] by {
                assert(rest@[j] == r0[j + 1]);
                assert(pendings_view(r0)[j + 1] == orig.skip(k)[j + 1]);
            }
            assert(pendings_view(rest@) =~= orig.skip(k + 1));
        }
        let ghost sv = pendings_view(sorted@);
        let mut pos = sorted.len();
        while pos > 0 && !sorts_before_exec(&sorted[pos - 1], &x, order)
            invariant
                pos <= sorted@.len(),
                sv == pendings_view(sorted@),
                xv == pending_view(x),
                ov == path_view(order@),
                forall|j: int| pos <= j < sv.len() ==> !sorts_before(#[trigger] sv[j], xv, ov),
            decreases pos,
        {
            pos = pos - 1;
        }
        proof {
            lemma_insert_at(sv, xv, ov, pos as int);
        }
        sorted.insert(pos, x);
        proof {
            assert(pendings_view(sorted@) =~= sv.take(pos as int) + seq![xv] + sv.skip(pos as int));
            let t = orig.take(k + 1);
            assert(t.drop_last() =~= orig.take(k));
            assert(t.last() == xv);
            k = k + 1;
        }
    }
    proof {
        assert(orig.skip(k).len() == 0);
        assert(orig.take(k) =~= orig);
    }
    sorted
}

// --- Registering -----------------------------------------------------------------------

/// A step just registered from `p`: its code, columns, assertion text and
/// description, and no verdict or counts yet.
pub open spec fn new_step(s: Step, p: PendingV) -> bool {
    &&& s.code@ == p.code
    &&& path_view(s.columns@) == p.columns
    &&& opt_view(s.assertion) == p.assertion
    &&& opt_view(s.description) == p.description
    &&& s.outcome == StepOutcome::Unevaluated
    &&& s.row_count is None
    &&& s.failed_row_count is None
    &&& !s.all_rows_fail
    &&& !s.uncounted
}

/// `after` is `before` with a step registered for each of `items`, in order.
pub open spec fn registered(before: Steps, after: Steps, items: Seq<PendingV>) -> bool {
    &&& after.key_views() == before.key_views() + items.map_values(|p: PendingV| p.key)
    &&& after.step_seq().len() == before.step_seq().len() + items.len()
    &&& after.step_seq().take(before.step_seq().len() as int) == before.step_seq()
    &&& forall|j: int| 0 <= j < items.len() ==> new_step(#[trigger] after.step_seq()[before.step_seq().len() + j], items[j])
}

/// The steps `register` adds for a table: each the dictionary implies, in
/// dictionary order, unless one with its key is registered already.
pub open spec fn steps_for(before: Steps, table: Table, level: Level, assertions: Seq<(Seq<char>, Seq<Seq<char>>)>) -> Seq<
    PendingV,
> {
    fresh(before.key_views(), stable_sorted(pending_of(table, level, assertions), column_order_spec(table)))
}

proof fn lemma_fresh_len(keys: Seq<KeyV>, items: Seq<PendingV>)
    ensures
        fresh(keys, items).len() <= items.len(),
    decreases items.len(),
{
    if items.len() > 0 {
        lemma_fresh_len(keys, items.drop_last());
    }
}

impl Steps {
    /// Register every step the dictionary implies for `table`, all
    /// `Unevaluated` until a check records otherwise. `assertions` are the
    /// table's expressions in `table_assertions` order, each with the columns
    /// it reads. The steps come in dictionary order: the table's own, then
    /// each under the column it is about (a step over several columns under
    /// the first, one about no column last), and that column's by code, the
    /// metadata ones before the data ones.
    pub fn register(&mut self, table: &Table, level: Level, assertions: &[(String, Vec<String>)])
        requires
            old(self).wf(),
            old(self).step_seq().len() + pending_of(*table, level, assertions_view(assertions@)).len() < usize::MAX,
        ensures
            final(self).wf(),
            final(self).row_counts == old(self).row_counts,
            registered(*old(self), *final(self), steps_for(*old(self), *table, level, assertions_view(assertions@))),
    {
        let pending = pending_for(table, level, assertions);
        let order = column_order(table);
        let sorted = sort_pending(pending, &order);
        let ghost items = pendings_view(sorted@);
        let ghost keys0 = self.key_views();
        let ghost n0 = self.step_seq().len();
        proof {
            lemma_sorted_len(pending_of(*table, level, assertions_view(assertions@)), path_view(order@));
            assert(items.skip(0) =~= items);
            assert(items.take(0) =~= Seq::<PendingV>::empty());
            assert(self.key_views() =~= keys0 + fresh(keys0, items.take(0)).map_values(|p: PendingV| p.key));
            assert(self.step_seq().take(n0 as int) =~= old(self).step_seq());
        }
        let mut rest = sorted;
        let ghost mut k: int = 0;
        while rest.len() > 0
            invariant
                0 <= k <= items.len(),
                items.len() + n0 < usize::MAX,
                pendings_view(rest@) == items.skip(k),
                self.wf(),
                self.row_counts == old(self).row_counts,
                keys0 == old(self).key_views(),
                n0 == old(self).step_seq().len(),
                registered(*old(self), *self, fresh(keys0, items.take(k))),
            decreases rest@.len(),
        {
            let ghost r0 = rest@;
            assert(pendings_view(r0).len() == r0.len());
            let p = rest.remove(0);
            let ghost pv = pending_view(p);
            let ghost f = fresh(keys0, items.take(k));
            proof {
                assert(pendings_view(r0)[0] == pv);
                assert(rest@ =~= r0.skip(1));
                assert forall|j: int| 0 <= j < rest@.len() implies #[trigger] pendings_view(rest@)[j] == items.skip(k + 1)[j] by {
                    assert(rest@[j] == r0[j + 1]);
                    assert(pendings_view(r0)[j + 1] == items.skip(k)[j + 1]);
                }
                assert(pendings_view(rest@) =~= items.skip(k + 1));
                let t = items.take(k + 1);
                assert(t.drop_last() =~= items.take(k));
                assert(t.last() == pv);
                lemma_fresh_len(keys0, items.take(k));
                let fk = f.map_values(|q: PendingV| q.key);
                assert(self.key_views() == keys0 + fk);
                assert((keys0 + fk).contains(pv.key) <==> (keys0.contains(pv.key) || fk.contains(pv.key))) by {
                    if (keys0 + fk).contains(pv.key) {
                        let i = choose|i: int| 0 <= i < (keys0 + fk).len() && (keys0 + fk)[i] == pv.key;
                        if i < keys0.len() {
                            assert(keys0[i] == pv.key);
                        } else {
                            assert(fk[i - keys0.len()] == pv.key);
                        }
                    }
                    if keys0.contains(pv.key) {
                        let i = choose|i: int| 0 <= i < keys0.len() && keys0[i] == pv.key;
                        assert((keys0 + fk)[i] == pv.key);
                    }
                    if fk.contains(pv.key) {
                        let i = choose|i: int| 0 <= i < fk.len() && fk[i] == pv.key;
                        assert((keys0 + fk)[keys0.len() + i] == pv.key);
                    }
                }
            }
            let ghost before = *self;
            self.add(p.key, p.code, p.columns, p.assertion, p.description, p.span, p.context);
            proof {
                let f2 = fresh(keys0, items.take(k + 1));
                if before.key_views().contains(pv.key) {
                    assert(f2 == f);
                } else {
                    assert(f2 == f.push(pv));
                    assert(f2.map_values(|q: PendingV| q.key) =~= f.map_values(|q: PendingV| q.key).push(pv.key));
                    assert(self.key_views() =~= keys0 + f2.map_values(|q: PendingV| q.key));
                    assert(self.step_seq().take(n0 as int) =~= before.step_seq().take(n0 as int));
                    assert forall|j: int| 0 <= j < f2.len() implies new_step(#[trigger] self.step_seq()[n0 + j], f2[j]) by {
                        if j < f.len() {
                            assert(self.step_seq()[n0 + j] == before.step_seq()[n0 + j]);
                        }
                    }
                }
                k = k + 1;
            }
        }
        proof {
            assert(items.skip(k).len() == 0);
            assert(items.take(k) =~= items);
        }
    }
}

// --- Columns in dictionary order -----------------------------------------------------

/// Where a column sorts: its place in the dictionary, or last.
pub open spec fn column_rank(order: Seq<Seq<char>>, c: Seq<char>) -> int {
    match place_in(order, c, 0) {
        Some(at) => at,
        None => usize::MAX as int,
    }
}

/// `c` inserted into `sorted` after every column that sorts no later.
pub open spec fn insert_column(sorted: Seq<Seq<char>>, c: Seq<char>, order: Seq<Seq<char>>) -> Seq<Seq<char>>
    decreases sorted.len(),
{
    if sorted.len() == 0 {
        seq![c]
    } else if column_rank(order, sorted.last()) <= column_rank(order, c) {
        sorted.push(c)
    } else {
        insert_column(sorted.drop_last(), c, order).push(sorted.last())
    }
}

/// Columns in dictionary order, columns that sort together keeping their
/// order: the stable sort by place.
pub open spec fn in_order(cols: Seq<Seq<char>>, order: Seq<Seq<char>>) -> Seq<Seq<char>>
    decreases cols.len(),
{
    if cols.len() == 0 {
        seq![]
    } else {
        insert_column(in_order(cols.drop_last(), order), cols.last(), order)
    }
}

proof fn lemma_insert_column_at(s: Seq<Seq<char>>, c: Seq<char>, order: Seq<Seq<char>>, pos: int)
    requires
        0 <= pos <= s.len(),
        forall|j: int| pos <= j < s.len() ==> column_rank(order, #[trigger] s[j]) > column_rank(order, c),
        pos == 0 || column_rank(order, s[pos - 1]) <= column_rank(order, c),
    ensures
        insert_column(s, c, order) == s.take(pos) + seq![c] + s.skip(pos),
    decreases s.len(),
{
    if pos == s.len() {
        if s.len() == 0 {
            assert(s.take(pos) + seq![c] + s.skip(pos) =~= seq![c]);
        } else {
            assert(s.take(pos) + seq![c] + s.skip(pos) =~= s.push(c));
        }
    } else {
        let t = s.drop_last();
        assert(column_rank(order, s[s.len() - 1]) > column_rank(order, c));
        assert forall|j: int| pos <= j < t.len() implies column_rank(order, #[trigger] t[j]) > column_rank(order, c) by {
            assert(t[j] == s[j]);
        }
        if pos > 0 {
            assert(t[pos - 1] == s[pos - 1]);
        }
        lemma_insert_column_at(t, c, order, pos);
        assert(t.take(pos) + seq![c] + t.skip(pos) + seq![s.last()] =~= s.take(pos) + seq![c] + s.skip(pos));
    }
}

fn column_rank_of(order: &Vec<String>, c: &str) -> (r: usize)
    ensures
        r as int == column_rank(path_view(order@), c@),
{
    match place_of(order, c) {
        Some(at) => at,
        None => usize::MAX,
    }
}

/// Put the columns a check names into dictionary order, which is the order a
/// step and a problem report them in.
pub fn in_dictionary_order(table: &Table, columns: &mut Vec<String>)
    ensures
        path_view(final(columns)@) == in_order(path_view(old(columns)@), column_order_spec(*table)),
{
    let order = column_order(table);
    let ghost ov = path_view(order@);
    let ghost orig = path_view(columns@);
    let mut sorted: Vec<String> = Vec::new();
    let mut k: usize = 0;
    assert(orig.take(0) =~= Seq::<Seq<char>>::empty());
    while k < columns.len()
        invariant
            k <= columns@.len(),
            orig == path_view(columns@),
            columns@ == old(columns)@,
            ov == path_view(order@),
            path_view(sorted@) == in_order(orig.take(k as int), ov),
        decreases columns@.len() - k,
    {
        let c = columns[k].clone();
        let rc = column_rank_of(&order, c.as_str());
        let ghost sv = path_view(sorted@);
        let mut pos = sorted.len();
        while pos > 0 && column_rank_of(&order, sorted[pos - 1].as_str()) > rc
            invariant
                pos <= sorted@.len(),
                sv == path_view(sorted@),
                ov == path_view(order@),
                rc as int == column_rank(ov, c@),
                forall|j: int| pos <= j < sv.len() ==> column_rank(ov, #[trigger] sv[j]) > column_rank(ov, c@),
            decreases pos,
        {
            pos = pos - 1;
        }
        proof {
            lemma_insert_column_at(sv, c@, ov, pos as int);
        }
        let ghost cv = c@;
        sorted.insert(pos, c);
        proof {
            assert(path_view(sorted@) =~= sv.take(pos as int) + seq![cv] + sv.skip(pos as int));
            let t = orig.take(k + 1);
            assert(t.drop_last() =~= orig.take(k as int));
            assert(t.last() == cv);
        }
        k = k + 1;
    }
    assert(orig.take(k as int) =~= orig);
    *columns = sorted;
}

// --- Laws ----------------------------------------------------------------------------

/// After registration every implied step has a key among the registered
/// ones, so registering the same steps again adds nothing.
pub proof fn law_every_implied_step_is_registered(keys: Seq<KeyV>, items: Seq<PendingV>)
    ensures
        forall|i: int|
            0 <= i < items.len() ==> (keys + fresh(keys, items).map_values(|p: PendingV| p.key)).contains(
                #[trigger] items[i].key,
            ),
        fresh(keys + fresh(keys, items).map_values(|p: PendingV| p.key), items).len() == 0,
    decreases items.len(),
{
    let all = keys + fresh(keys, items).map_values(|p: PendingV| p.key);
    if items.len() > 0 {
        let t = items.drop_last();
        law_every_implied_step_is_registered(keys, t);
        let f = fresh(keys, t);
        let fk = f.map_values(|p: PendingV| p.key);
        let before = keys + fk;
        let x = items.last();
        // Everything registered for the prefix stays registered.
        assert forall|j: int| 0 <= j < before.len() implies all.contains(#[trigger] before[j]) by {
            if j < keys.len() {
                assert(all[j] == before[j]);
            } else {
                let fresh_all = fresh(keys, items).map_values(|p: PendingV| p.key);
                if fresh(keys, items) == f {
                    assert(all[j] == before[j]);
                } else {
                    assert(fresh(keys, items) == f.push(x));
                    assert(fresh_all[j - keys.len()] == fk[j - keys.len()]);
                    assert(all[j] == before[j]);
                }
            }
        }
        assert forall|i: int| 0 <= i < items.len() implies all.contains(#[trigger] items[i].key) by {
            if i < t.len() {
                assert(t[i] == items[i]);
                assert(before.contains(t[i].key));
                let j = choose|j: int| 0 <= j < before.len() && before[j] == t[i].key;
                assert(all.contains(before[j]));
            } else {
                if keys.contains(x.key) {
                    let j = choose|j: int| 0 <= j < keys.len() && keys[j] == x.key;
                    assert(all[j] == x.key);
                } else if fk.contains(x.key) {
                    let j = choose|j: int| 0 <= j < fk.len() && fk[j] == x.key;
                    assert(before[keys.len() + j] == x.key);
                    assert(all.contains(before[keys.len() + j]));
                } else {
                    assert(fresh(keys, items) == f.push(x));
                    let fresh_all = fresh(keys, items).map_values(|p: PendingV| p.key);
                    assert(fresh_all[f.len() as int] == x.key);
                    assert(all[(keys.len() + f.len()) as int] == x.key);
                }
            }
        }
    }
    lemma_fresh_empty(all, items);
}

/// Nothing is fresh against keys that already hold every item's.
proof fn lemma_fresh_empty(keys: Seq<KeyV>, items: Seq<PendingV>)
    requires
        forall|i: int| 0 <= i < items.len() ==> keys.contains(#[trigger] items[i].key),
    ensures
        fresh(keys, items).len() == 0,
    decreases items.len(),
{
    if items.len() > 0 {
        let t = items.drop_last();
        assert forall|i: int| 0 <= i < t.len() implies keys.contains(#[trigger] t[i].key) by {
            assert(t[i] == items[i]);
        }
        lemma_fresh_empty(keys, t);
        assert(keys.contains(items[items.len() - 1].key));
    }
}

/// Weighing a step against its table's rows never changes its verdict, and
/// leaves a step without a verdict as it was.
pub proof fn law_weighing_keeps_verdicts(s: Step, rows: Option<usize>)
    ensures
        weighed(s, rows).outcome == s.outcome,
        s.outcome == StepOutcome::Unevaluated ==> weighed(s, rows) == s,
        s.uncounted ==> weighed(s, rows) == s,
{
}

// --- The table's own step comes first ---------------------------------------------------

/// None of `s` is a table's own step.
pub open spec fn none_of_the_table(s: Seq<PendingV>) -> bool {
    forall|i: int| 0 <= i < s.len() ==> !((#[trigger] s[i]).key.target is Table)
}

proof fn lemma_none_concat(a: Seq<PendingV>, b: Seq<PendingV>)
    requires
        none_of_the_table(a),
        none_of_the_table(b),
    ensures
        none_of_the_table(a + b),
{
    assert forall|i: int| 0 <= i < (a + b).len() implies !((#[trigger] (a + b)[i]).key.target is Table) by {
        if i < a.len() {
            assert((a + b)[i] == a[i]);
        } else {
            assert((a + b)[i] == b[i - a.len()]);
        }
    }
}

proof fn lemma_column_pending_none(table: Table, col: Column, level: Level, path: Seq<Seq<char>>)
    ensures
        none_of_the_table(column_pending(table, col, level, path)),
    decreases col, 1int,
{
    let name = table.name.value@;
    let d = dotted(path);
    let cs = constraint_steps(name, col, d);
    assert(none_of_the_table(cs)) by {
        let a = if col.spec_has(Constraint::Required) || col.spec_has(Constraint::PrimaryKey) {
            seq![plain(name, TargetV::Required(d), "D01"@, seq![d])]
        } else {
            seq![]
        };
        let b = if col.spec_has(Constraint::Unique) {
            seq![plain(name, TargetV::Unique(d), "D02"@, seq![d])]
        } else {
            seq![]
        };
        let c = if col.spec_has(Constraint::ForeignKey) {
            seq![plain(name, TargetV::ForeignKey(d), "D05"@, seq![d])]
        } else {
            seq![]
        };
        lemma_none_concat(a, b);
        lemma_none_concat(a + b, c);
    }
    let m = seq![plain(name, TargetV::Column(path), "M01"@, seq![d])];
    let data = if level == Level::Data {
        (if path.len() == 1 {
            cs
        } else {
            seq![]
        }) + (if enum_column(col) && col.values is Some {
            seq![plain(name, TargetV::Enum(path), "D04"@, seq![d])]
        } else {
            seq![]
        })
    } else {
        seq![]
    };
    if level == Level::Data {
        let x = if path.len() == 1 {
            cs
        } else {
            seq![]
        };
        let y = if enum_column(col) && col.values is Some {
            seq![plain(name, TargetV::Enum(path), "D04"@, seq![d])]
        } else {
            seq![]
        };
        lemma_none_concat(x, y);
    }
    lemma_none_concat(m, data);
    match col.fields {
        Some(fs) => {
            lemma_fields_pending_none(table, fs@, level, path);
            lemma_none_concat(m + data, fields_pending(table, fs@, level, path));
        },
        None => {
            lemma_none_concat(m + data, seq![]);
        },
    }
}

proof fn lemma_fields_pending_none(table: Table, fs: Seq<Column>, level: Level, path: Seq<Seq<char>>)
    ensures
        none_of_the_table(fields_pending(table, fs, level, path)),
    decreases fs, 0int,
{
    if fs.len() > 0 {
        lemma_fields_pending_none(table, fs.drop_last(), level, path);
        lemma_column_pending_none(table, fs.last(), level, path.push(fs.last().name.value@));
        lemma_none_concat(
            fields_pending(table, fs.drop_last(), level, path),
            column_pending(table, fs.last(), level, path.push(fs.last().name.value@)),
        );
    }
}

proof fn lemma_top_pending_none(table: Table, cols: Seq<Column>, level: Level)
    ensures
        none_of_the_table(top_pending(table, cols, level)),
    decreases cols.len(),
{
    if cols.len() > 0 {
        lemma_top_pending_none(table, cols.drop_last(), level);
        lemma_column_pending_none(table, cols.last(), level, seq![cols.last().name.value@]);
        lemma_none_concat(
            top_pending(table, cols.drop_last(), level),
            column_pending(table, cols.last(), level, seq![cols.last().name.value@]),
        );
    }
}

proof fn lemma_assertion_pending_none(table: Table, a: Seq<(Seq<char>, Seq<Seq<char>>)>)
    ensures
        none_of_the_table(assertion_pending(table, a)),
    decreases a.len(),
{
    if a.len() > 0 {
        lemma_assertion_pending_none(table, a.drop_last());
        let at = a.len() - 1;
        let x = seq![PendingV {
            key: KeyV { table: table.name.value@, target: TargetV::Assertion(at as usize) },
            code: "D07"@,
            columns: a.last().1,
            assertion: Some(a.last().0),
            description: description_at(table, at),
        }];
        lemma_none_concat(assertion_pending(table, a.drop_last()), x);
    }
}

proof fn lemma_place_in_from(order: Seq<Seq<char>>, c: Seq<char>, i: int)
    ensures
        place_in(order, c, i) matches Some(k) ==> k >= i,
    decreases order.len() - i,
{
    if !(i < 0 || i >= order.len()) && order[i] != c {
        lemma_place_in_from(order, c, i + 1);
    }
}

proof fn lemma_insert_keeps_first(t: Seq<PendingV>, x: PendingV, order: Seq<Seq<char>>)
    requires
        t.len() > 0,
        sorts_before(t[0], x, order),
    ensures
        insert_sorted(t, x, order).len() > 0,
        insert_sorted(t, x, order)[0] == t[0],
    decreases t.len(),
{
    if t.len() > 1 && !sorts_before(t.last(), x, order) {
        lemma_insert_keeps_first(t.drop_last(), x, order);
    }
}

proof fn lemma_sorted_keeps_first(s: Seq<PendingV>, order: Seq<Seq<char>>)
    requires
        s.len() > 0,
        forall|i: int| 0 < i < s.len() ==> sorts_before(s[0], #[trigger] s[i], order),
    ensures
        stable_sorted(s, order).len() > 0,
        stable_sorted(s, order)[0] == s[0],
    decreases s.len(),
{
    if s.len() > 1 {
        let d = s.drop_last();
        assert forall|i: int| 0 < i < d.len() implies sorts_before(d[0], #[trigger] d[i], order) by {
            assert(d[i] == s[i]);
        }
        lemma_sorted_keeps_first(d, order);
        assert(d[0] == s[0]);
        assert(sorts_before(s[0], s[s.len() - 1], order));
        lemma_insert_keeps_first(stable_sorted(d, order), s.last(), order);
    } else {
        assert(s.drop_last() =~= Seq::<PendingV>::empty());
        assert(stable_sorted(s.drop_last(), order) =~= Seq::<PendingV>::empty());
        assert(s.last() == s[0]);
    }
}

proof fn lemma_fresh_keeps_first(keys: Seq<KeyV>, items: Seq<PendingV>)
    requires
        items.len() > 0,
        !keys.contains(items[0].key),
    ensures
        fresh(keys, items).len() > 0,
        fresh(keys, items)[0] == items[0],
    decreases items.len(),
{
    if items.len() == 1 {
        assert(items.drop_last() =~= Seq::<PendingV>::empty());
        assert(fresh(keys, items.drop_last()).map_values(|p: PendingV| p.key) =~= Seq::<KeyV>::empty());
        assert(items.last() == items[0]);
    } else {
        let d = items.drop_last();
        assert(d[0] == items[0]);
        lemma_fresh_keeps_first(keys, d);
    }
}

/// The first step registered for a table into an empty list is the table's
/// own, the `M04` check that it exists; steps are numbered from 1 in order,
/// and each new one is unevaluated, with no rows counted.
pub proof fn law_first_step_is_the_table(
    before: Steps,
    after: Steps,
    table: Table,
    level: Level,
    assertions: Seq<(Seq<char>, Seq<Seq<char>>)>,
)
    requires
        before.wf(),
        after.wf(),
        before.step_seq().len() == 0,
        registered(before, after, steps_for(before, table, level, assertions)),
    ensures
        after.step_seq().len() > 0,
        after.step_seq()[0].code@ == "M04"@,
        forall|i: int| 0 <= i < after.step_seq().len() ==> (#[trigger] after.step_seq()[i]).id == i + 1,
        forall|i: int|
            0 <= i < after.step_seq().len() ==> (#[trigger] after.step_seq()[i]).outcome == StepOutcome::Unevaluated
                && after.step_seq()[i].row_count is None,
{
    let name = table.name.value@;
    let order = column_order_spec(table);
    let head = plain(name, TargetV::Table, "M04"@, seq![]);
    let pk = pk_names(table.columns@);
    let rest = top_pending(table, table.columns@, level) + if level == Level::Data {
        (if pk.len() > 0 {
            seq![plain(name, TargetV::PrimaryKey, "D02"@, pk)]
        } else {
            seq![]
        }) + assertion_pending(table, assertions)
    } else {
        seq![]
    };
    lemma_top_pending_none(table, table.columns@, level);
    if level == Level::Data {
        let x = if pk.len() > 0 {
            seq![plain(name, TargetV::PrimaryKey, "D02"@, pk)]
        } else {
            seq![]
        };
        lemma_assertion_pending_none(table, assertions);
        lemma_none_concat(x, assertion_pending(table, assertions));
        lemma_none_concat(top_pending(table, table.columns@, level), x + assertion_pending(table, assertions));
    } else {
        lemma_none_concat(top_pending(table, table.columns@, level), seq![]);
    }
    let items = pending_of(table, level, assertions);
    assert(items == seq![head] + rest);
    assert(items[0] == head);
    assert forall|i: int| 0 < i < items.len() implies sorts_before(items[0], #[trigger] items[i], order) by {
        assert(items[i] == rest[i - 1]);
        assert(!(rest[i - 1].key.target is Table));
        if items[i].columns.len() > 0 {
            lemma_place_in_from(order, items[i].columns[0], 0);
        }
    }
    lemma_sorted_keeps_first(items, order);
    let sorted = stable_sorted(items, order);
    assert(before.key_views().len() == 0);
    assert(!before.key_views().contains(sorted[0].key));
    lemma_fresh_keeps_first(before.key_views(), sorted);
    let f = steps_for(before, table, level, assertions);
    assert(f[0] == head);
    assert(new_step(after.step_seq()[before.step_seq().len() as int + 0], f[0]));
    assert forall|i: int| 0 <= i < after.step_seq().len() implies (#[trigger] after.step_seq()[i]).outcome
        == StepOutcome::Unevaluated && after.step_seq()[i].row_count is None by {
        assert(new_step(after.step_seq()[before.step_seq().len() + i], f[i]));
    }
}

// --- A metadata run registers metadata steps only -------------------------------------

/// Every item of `s` is a metadata existence step: `M04` or `M01`.
pub open spec fn existence_only(s: Seq<PendingV>) -> bool {
    forall|i: int| 0 <= i < s.len() ==> (#[trigger] s[i]).code == "M04"@ || s[i].code == "M01"@
}

proof fn lemma_existence_concat(a: Seq<PendingV>, b: Seq<PendingV>)
    requires
        existence_only(a),
        existence_only(b),
    ensures
        existence_only(a + b),
{
    assert forall|i: int| 0 <= i < (a + b).len() implies (#[trigger] (a + b)[i]).code == "M04"@ || (a
        + b)[i].code == "M01"@ by {
        if i < a.len() {
            assert((a + b)[i] == a[i]);
        } else {
            assert((a + b)[i] == b[i - a.len()]);
        }
    }
}

proof fn lemma_column_pending_meta(table: Table, col: Column, path: Seq<Seq<char>>)
    ensures
        existence_only(column_pending(table, col, Level::Meta, path)),
    decreases col, 1int,
{
    let name = table.name.value@;
    let d = dotted(path);
    let m = seq![plain(name, TargetV::Column(path), "M01"@, seq![d])];
    lemma_existence_concat(m, seq![]);
    match col.fields {
        Some(fs) => {
            lemma_fields_pending_meta(table, fs@, path);
            lemma_existence_concat(m + seq![], fields_pending(table, fs@, Level::Meta, path));
        },
        None => {
            lemma_existence_concat(m + seq![], seq![]);
        },
    }
}

proof fn lemma_fields_pending_meta(table: Table, fs: Seq<Column>, path: Seq<Seq<char>>)
    ensures
        existence_only(fields_pending(table, fs, Level::Meta, path)),
    decreases fs, 0int,
{
    if fs.len() > 0 {
        lemma_fields_pending_meta(table, fs.drop_last(), path);
        lemma_column_pending_meta(table, fs.last(), path.push(fs.last().name.value@));
        lemma_existence_concat(
            fields_pending(table, fs.drop_last(), Level::Meta, path),
            column_pending(table, fs.last(), Level::Meta, path.push(fs.last().name.value@)),
        );
    }
}

proof fn lemma_top_pending_meta(table: Table, cols: Seq<Column>)
    ensures
        existence_only(top_pending(table, cols, Level::Meta)),
    decreases cols.len(),
{
    if cols.len() > 0 {
        lemma_top_pending_meta(table, cols.drop_last());
        lemma_column_pending_meta(table, cols.last(), seq![cols.last().name.value@]);
        lemma_existence_concat(
            top_pending(table, cols.drop_last(), Level::Meta),
            column_pending(table, cols.last(), Level::Meta, seq![cols.last().name.value@]),
        );
    }
}

proof fn lemma_insert_existence(t: Seq<PendingV>, x: PendingV, order: Seq<Seq<char>>)
    requires
        existence_only(t),
        x.code == "M04"@ || x.code == "M01"@,
    ensures
        existence_only(insert_sorted(t, x, order)),
    decreases t.len(),
{
    if t.len() == 0 {
        assert(seq![x][0] == x);
    } else if sorts_before(t.last(), x, order) {
        lemma_existence_concat(t, seq![x]);
        assert(t + seq![x] =~= t.push(x));
    } else {
        let d = t.drop_last();
        assert(existence_only(d)) by {
            assert forall|i: int| 0 <= i < d.len() implies (#[trigger] d[i]).code == "M04"@ || d[i].code
                == "M01"@ by {
                assert(d[i] == t[i]);
            }
        }
        lemma_insert_existence(d, x, order);
        assert(t[t.len() - 1] == t.last());
        lemma_existence_concat(insert_sorted(d, x, order), seq![t.last()]);
        assert(insert_sorted(d, x, order) + seq![t.last()] =~= insert_sorted(d, x, order).push(t.last()));
    }
}

proof fn lemma_sorted_existence(s: Seq<PendingV>, order: Seq<Seq<char>>)
    requires
        existence_only(s),
    ensures
        existence_only(stable_sorted(s, order)),
    decreases s.len(),
{
    if s.len() > 0 {
        let d = s.drop_last();
        assert(existence_only(d)) by {
            assert forall|i: int| 0 <= i < d.len() implies (#[trigger] d[i]).code == "M04"@ || d[i].code
                == "M01"@ by {
                assert(d[i] == s[i]);
            }
        }
        lemma_sorted_existence(d, order);
        assert(s[s.len() - 1] == s.last());
        lemma_insert_existence(stable_sorted(d, order), s.last(), order);
    }
}

proof fn lemma_fresh_existence(keys: Seq<KeyV>, items: Seq<PendingV>)
    requires
        existence_only(items),
    ensures
        existence_only(fresh(keys, items)),
    decreases items.len(),
{
    if items.len() > 0 {
        let d = items.drop_last();
        assert(existence_only(d)) by {
            assert forall|i: int| 0 <= i < d.len() implies (#[trigger] d[i]).code == "M04"@ || d[i].code
                == "M01"@ by {
                assert(d[i] == items[i]);
            }
        }
        lemma_fresh_existence(keys, d);
        assert(items[items.len() - 1] == items.last());
        lemma_existence_concat(fresh(keys, d), seq![items.last()]);
        assert(fresh(keys, d) + seq![items.last()] =~= fresh(keys, d).push(items.last()));
    }
}

/// A metadata run registers no data steps: every step it adds is the table's
/// existence check (`M04`) or a column's (`M01`).
pub proof fn law_metadata_runs_register_existence_only(
    before: Steps,
    after: Steps,
    table: Table,
    assertions: Seq<(Seq<char>, Seq<Seq<char>>)>,
)
    requires
        registered(before, after, steps_for(before, table, Level::Meta, assertions)),
    ensures
        forall|i: int|
            before.step_seq().len() <= i < after.step_seq().len() ==> (#[trigger] after.step_seq()[i]).code@
                == "M04"@ || after.step_seq()[i].code@ == "M01"@,
{
    let name = table.name.value@;
    let head = seq![plain(name, TargetV::Table, "M04"@, seq![])];
    lemma_top_pending_meta(table, table.columns@);
    lemma_existence_concat(head, top_pending(table, table.columns@, Level::Meta));
    lemma_existence_concat(head + top_pending(table, table.columns@, Level::Meta), seq![]);
    let items = pending_of(table, Level::Meta, assertions);
    assert(existence_only(items));
    let order = column_order_spec(table);
    lemma_sorted_existence(items, order);
    lemma_fresh_existence(before.key_views(), stable_sorted(items, order));
    let f = steps_for(before, table, Level::Meta, assertions);
    let n = before.step_seq().len();
    assert forall|i: int| n <= i < after.step_seq().len() implies (#[trigger] after.step_seq()[i]).code@ == "M04"@
        || after.step_seq()[i].code@ == "M01"@ by {
        assert(new_step(after.step_seq()[n + (i - n)], f[i - n]));
    }
}

} // verus!
