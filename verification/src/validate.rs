//! The findings of a rule check as a table, and what a check is asked for.

use vstd::prelude::*;
use vstd::string::*;

use crate::cert::{
    clean_verdict_certified, edition_label, parse_edition, unknown_edition, vouched, DictVersion,
};
use crate::table::{
    column, columns_view, row_view, rows_view, str_cell, well_typed, Cell, CellView, ColType,
    Column, Table,
};
use crate::text::{opt_text, same, str_view, trim, trimmed};

verus! {

/// How serious a finding is.
#[derive(Clone, Copy, Debug, PartialEq, Eq, Structural)]
pub enum Severity {
    Error,
    Warning,
    Fyi,
}

/// What a severity is called.
pub open spec fn severity_name(s: Severity) -> Seq<char> {
    match s {
        Severity::Error => "error"@,
        Severity::Warning => "warning"@,
        Severity::Fyi => "fyi"@,
    }
}

/// What a severity is called.
pub fn severity_label(s: Severity) -> (r: &'static str)
    ensures
        r@ == severity_name(s),
        match s {
            Severity::Error => r@ == "error"@,
            Severity::Warning => r@ == "warning"@,
            Severity::Fyi => r@ == "fyi"@,
        },
{
    match s {
        Severity::Error => "error",
        Severity::Warning => "warning",
        Severity::Fyi => "fyi",
    }
}

/// One finding of a check: the rule, the line where it points to one, the group,
/// how serious it is, and what it says.
#[derive(Clone, Debug, PartialEq, Eq)]
pub struct Finding {
    pub rule: String,
    pub line: Option<u32>,
    pub group: String,
    pub severity: Severity,
    pub desc: String,
}

/// What a finding says.
#[verifier::ext_equal]
pub struct FindingView {
    pub rule: Seq<char>,
    pub line: Option<u32>,
    pub group: Seq<char>,
    pub severity: Severity,
    pub desc: Seq<char>,
}

impl View for Finding {
    type V = FindingView;

    open spec fn view(&self) -> FindingView {
        FindingView {
            rule: self.rule@,
            line: self.line,
            group: self.group@,
            severity: self.severity,
            desc: self.desc@,
        }
    }
}

/// What a list of findings says.
pub open spec fn findings_view(findings: Seq<Finding>) -> Seq<FindingView> {
    Seq::new(findings.len(), |i: int| findings[i]@)
}

/// The columns of `validate_ags`.
pub open spec fn findings_columns() -> Seq<(Seq<char>, ColType)> {
    seq![
        ("rule"@, ColType::Varchar),
        ("line"@, ColType::BigInt),
        ("group"@, ColType::Varchar),
        ("severity"@, ColType::Varchar),
        ("desc"@, ColType::Varchar),
    ]
}

/// The row of a finding.
pub open spec fn finding_row(f: FindingView) -> Seq<CellView> {
    seq![
        CellView::Str(f.rule),
        match f.line {
            Some(n) => CellView::Int(n as i64),
            None => CellView::Null,
        },
        CellView::Str(f.group),
        CellView::Str(severity_name(f.severity)),
        CellView::Str(f.desc),
    ]
}

/// The rows of `validate_ags`: one for each finding, in order.
pub open spec fn findings_rows(findings: Seq<FindingView>) -> Seq<Seq<CellView>> {
    Seq::new(findings.len(), |i: int| finding_row(findings[i]))
}

/// `validate_ags(path)`: the findings of a check as a table.
pub fn findings_table(findings: &Vec<Finding>) -> (r: Table)
    ensures
        columns_view(r.columns@) == findings_columns(),
        rows_view(r.rows@) == findings_rows(findings_view(findings@)),
{
    let mut columns: Vec<Column> = Vec::new();
    columns.push(column("rule", ColType::Varchar));
    columns.push(column("line", ColType::BigInt));
    columns.push(column("group", ColType::Varchar));
    columns.push(column("severity", ColType::Varchar));
    columns.push(column("desc", ColType::Varchar));
    assert(columns_view(columns@) =~= findings_columns());
    let ghost want = findings_rows(findings_view(findings@));
    let mut rows: Vec<Vec<Cell>> = Vec::new();
    let mut i: usize = 0;
    while i < findings.len()
        invariant
            i <= findings@.len(),
            want == findings_rows(findings_view(findings@)),
            rows@.len() == i,
            forall|k: int| 0 <= k < i ==> row_view((#[trigger] rows@[k])@) == want[k],
        decreases findings@.len() - i,
    {
        let f = &findings[i];
        let line = match f.line {
            Some(n) => Cell::Int(n as i64),
            None => Cell::Null,
        };
        let mut row: Vec<Cell> = Vec::new();
        row.push(str_cell(f.rule.as_str()));
        row.push(line);
        row.push(str_cell(f.group.as_str()));
        row.push(str_cell(severity_label(f.severity)));
        row.push(str_cell(f.desc.as_str()));
        assert(row_view(row@) =~= want[i as int]);
        rows.push(row);
        i = i + 1;
    }
    assert(rows_view(rows@) =~= want);
    Table { columns, rows }
}

/// Every row of `validate_ags` has a cell for each column, and each cell fits its
/// column.
pub proof fn findings_are_well_typed(findings: Seq<FindingView>)
    ensures
        well_typed(findings_columns(), findings_rows(findings)),
{
}

/// The edition label that a `dict_version` parameter gives: none where it is absent
/// or blank.
pub open spec fn forced_label(given: Option<Seq<char>>) -> Option<Seq<char>> {
    match given {
        Some(s) => if trimmed(s).len() == 0 {
            None
        } else {
            Some(trimmed(s))
        },
        None => None,
    }
}

/// The edition label that a `dict_version` parameter gives.
pub fn forced_edition(given: Option<&str>) -> (r: Option<String>)
    ensures
        opt_text(r) == forced_label(
            match given {
                Some(s) => Some(s@),
                None => None,
            },
        ),
        match given {
            Some(s) => if trimmed(s@).len() == 0 {
                r is None
            } else {
                r is Some && r->Some_0@ == trimmed(s@)
            },
            None => r is None,
        },
{
    match given {
        Some(s) => {
            let label = trim(s);
            if label.is_empty() {
                None
            } else {
                Some(label.to_owned())
            }
        },
        None => None,
    }
}

/// The edition that a check is forced to: none where no label is given. A label
/// that no edition has is an error.
pub fn forced_version(label: &Option<String>) -> (r: Result<Option<DictVersion>, String>)
    ensures
        match opt_text(*label) {
            None => r == Ok::<Option<DictVersion>, String>(None),
            Some(l) => match r {
                Ok(Some(v)) => trimmed(l) == edition_label(v),
                Ok(None) => false,
                Err(e) => (forall|v: DictVersion| trimmed(l) != #[trigger] edition_label(v)) && e@
                    == unknown_edition(trimmed(l)),
            },
        },
{
    match label {
        Some(l) => match parse_edition(l.as_str()) {
            Ok(v) => Ok(Some(v)),
            Err(e) => Err(e),
        },
        None => Ok(None),
    }
}

/// Whether a certificate may answer a check: only one for errors alone, read as
/// UTF-8. A certificate says nothing of the other tiers.
pub fn certificate_may_answer(warnings: bool, fyi: bool, encoding: &str) -> (r: bool)
    ensures
        r == (!warnings && !fyi && encoding@ == "UTF-8"@),
{
    !warnings && !fyi && same(encoding, "UTF-8")
}

/// Whether a certificate answers a check, so that no rule is run: a check for errors
/// alone, read as UTF-8, of a file whose certificate vouches for just these bytes
/// under the forced edition or none.
pub fn answered_by_certificate(
    warnings: bool,
    fyi: bool,
    encoding: &str,
    json: Option<&[u8]>,
    bytes: &[u8],
    forced: Option<&str>,
) -> (r: bool)
    ensures
        r == (!warnings && !fyi && encoding@ == "UTF-8"@ && json is Some && vouched(
            json->Some_0@,
            bytes@,
            false,
            false,
            str_view(forced),
            "UTF-8"@,
        )),
{
    certificate_may_answer(warnings, fyi, encoding) && clean_verdict_certified(json, bytes, forced)
}

/// The tiers that a check reports: errors always, warnings unless they are switched
/// off, and FYI only where it is switched on.
pub fn tiers(warnings: Option<bool>, fyi: Option<bool>) -> (r: (bool, bool))
    ensures
        r.0 == (warnings != Some(false)),
        r.1 == (fyi == Some(true)),
{
    let want_warnings = match warnings {
        Some(b) => b,
        None => true,
    };
    let want_fyi = match fyi {
        Some(b) => b,
        None => false,
    };
    (want_warnings, want_fyi)
}

/// What is said of a file that cannot be checked.
pub fn cannot_check(function: &str, path: &str, error: &str) -> (r: String)
    ensures
        r@ == function@ + ": '"@ + path@ + "': "@ + error@,
{
    let mut m = function.to_owned();
    m.append(": '");
    m.append(path);
    m.append("': ");
    m.append(error);
    m
}

/// The findings are shown one by one, each as it is: its rule, its line, null where it
/// points to none, its group, its severity by name and what it says.
pub proof fn a_finding_is_shown_as_it_is(findings: Seq<FindingView>, i: int)
    requires
        0 <= i < findings.len(),
    ensures
        findings_rows(findings).len() == findings.len(),
        ({
            let f = findings[i];
            let row = findings_rows(findings)[i];
            &&& row.len() == 5
            &&& row[0] == CellView::Str(f.rule)
            &&& row[1] == match f.line {
                Some(n) => CellView::Int(n as i64),
                None => CellView::Null,
            }
            &&& row[2] == CellView::Str(f.group)
            &&& row[3] == CellView::Str(
                match f.severity {
                    Severity::Error => "error"@,
                    Severity::Warning => "warning"@,
                    Severity::Fyi => "fyi"@,
                },
            )
            &&& row[4] == CellView::Str(f.desc)
        }),
{
}

/// The columns of `validate_ags` by name, in their order.
pub proof fn findings_columns_by_name()
    ensures
        findings_columns().map_values(|c: (Seq<char>, ColType)| c.0) == seq![
            "rule"@,
            "line"@,
            "group"@,
            "severity"@,
            "desc"@,
        ],
{
}

} // verus!
