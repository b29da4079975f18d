//! The catalogue of AGS4 rules as a table.

use vstd::prelude::*;

use crate::table::{
    column, columns_view, nonempty_cell, row_view, rows_view, text_or_null, well_typed, Cell,
    CellView, ColType, Column, Table,
};
use crate::text::{join, joined, opt_text, texts};

verus! {

/// What the catalogue says of a rule. An observation that is no text is `None`.
#[derive(Clone, Debug, PartialEq, Eq)]
pub struct RuleMeta {
    pub rule: Option<String>,
    pub title: Option<String>,
    pub checks: Option<String>,
    pub severity: Option<String>,
    pub fixable: Option<bool>,
    pub observations: Option<Vec<Option<String>>>,
}

/// What is said of a rule.
#[verifier::ext_equal]
pub struct RuleView {
    pub rule: Option<Seq<char>>,
    pub title: Option<Seq<char>>,
    pub checks: Option<Seq<char>>,
    pub severity: Option<Seq<char>>,
    pub fixable: Option<bool>,
    pub observations: Option<Seq<Option<Seq<char>>>>,
}

/// What a list of optional texts holds.
pub open spec fn opt_texts(list: Seq<Option<String>>) -> Seq<Option<Seq<char>>> {
    Seq::new(list.len(), |i: int| opt_text(list[i]))
}

impl View for RuleMeta {
    type V = RuleView;

    open spec fn view(&self) -> RuleView {
        RuleView {
            rule: opt_text(self.rule),
            title: opt_text(self.title),
            checks: opt_text(self.checks),
            severity: opt_text(self.severity),
            fixable: self.fixable,
            observations: match self.observations {
                Some(v) => Some(opt_texts(v@)),
                None => None,
            },
        }
    }
}

/// What is said of a list of rules.
pub open spec fn metas_view(rules: Seq<RuleMeta>) -> Seq<RuleView> {
    Seq::new(rules.len(), |i: int| rules[i]@)
}

/// The rule at a place of the catalogue.
pub uninterp spec fn rule_at(place: nat) -> Option<RuleView>;

/// `laterite_ags4_validator::rule_metadata_json` is the rule catalogue as JSON
/// text, which `serde_json` reads: here the rules that it lists, in its order. The
/// catalogue is fixed; what it says of which rule is left to the name.
#[verifier::external_body]
pub(crate) fn rule_catalogue() -> (r: Vec<RuleMeta>)
    ensures
        forall|i: nat| #[trigger]
            rule_at(i) == if i < r@.len() {
                Some(r@[i as int]@)
            } else {
                None
            },
{
    let text = laterite_ags4_validator::rule_metadata_json();
    let meta: serde_json::Value = serde_json::from_str(text).unwrap_or_default();
    let own = |v: &serde_json::Value| v.as_str().map(|s| s.to_string());
    meta["rules"].as_array().into_iter().flatten().map(|r| RuleMeta {
        rule: own(&r["rule"]),
        title: own(&r["title"]),
        checks: own(&r["checks"]),
        severity: own(&r["severity"]),
        fixable: r["fixable"].as_bool(),
        observations: r["observations"].as_array().map(|a| a.iter().map(own).collect()),
    }).collect()
}

/// The columns of `ags_rules`.
pub open spec fn rules_columns() -> Seq<(Seq<char>, ColType)> {
    seq![
        ("rule"@, ColType::Varchar),
        ("title"@, ColType::Varchar),
        ("checks"@, ColType::Varchar),
        ("severity"@, ColType::Varchar),
        ("fixable"@, ColType::Boolean),
        ("observations"@, ColType::Varchar),
    ]
}

/// The cell of an optional text: null where there is none, or it is empty.
pub open spec fn said_cell(t: Option<Seq<char>>) -> CellView {
    match t {
        Some(s) => nonempty_cell(s),
        None => CellView::Null,
    }
}

/// The texts of a list, without what is none.
pub open spec fn present(list: Seq<Option<Seq<char>>>) -> Seq<Seq<char>>
    decreases list.len(),
{
    if list.len() == 0 {
        Seq::empty()
    } else {
        match list.last() {
            Some(s) => present(list.drop_last()).push(s),
            None => present(list.drop_last()),
        }
    }
}

/// The observations of a rule, joined by commas: null where there are none.
pub open spec fn observed_cell(list: Option<Seq<Option<Seq<char>>>>) -> CellView {
    match list {
        Some(l) => nonempty_cell(joined(present(l), ","@)),
        None => CellView::Null,
    }
}

/// The row of a rule in `ags_rules`.
pub open spec fn rule_row(m: RuleView) -> Seq<CellView> {
    seq![
        said_cell(m.rule),
        said_cell(m.title),
        said_cell(m.checks),
        said_cell(m.severity),
        match m.fixable {
            Some(b) => CellView::Bool(b),
            None => CellView::Null,
        },
        observed_cell(m.observations),
    ]
}

/// The rows of `ags_rules`.
pub open spec fn rules_rows(rules: Seq<RuleView>) -> Seq<Seq<CellView>> {
    Seq::new(rules.len(), |i: int| rule_row(rules[i]))
}

fn said(t: &Option<String>) -> (r: Cell)
    ensures
        r@ == said_cell(opt_text(*t)),
{
    match t {
        Some(s) => text_or_null(s.as_str()),
        None => Cell::Null,
    }
}

fn observed(list: &Option<Vec<Option<String>>>) -> (r: Cell)
    ensures
        r@ == observed_cell(
            match *list {
                Some(v) => Some(opt_texts(v@)),
                None => None,
            },
        ),
{
    match list {
        Some(v) => {
            let ghost all = opt_texts(v@);
            let mut found: Vec<String> = Vec::new();
            let mut i: usize = 0;
            assert(all.take(0) =~= Seq::empty());
            assert(texts(found@) =~= Seq::empty());
            while i < v.len()
                invariant
                    i <= v@.len(),
                    all == opt_texts(v@),
                    texts(found@) == present(all.take(i as int)),
                decreases v@.len() - i,
            {
                let ghost next = all.take(i + 1);
                assert(next.drop_last() =~= all.take(i as int));
                assert(next.last() == all[i as int]);
                match &v[i] {
                    Some(s) => {
                        let ghost had = texts(found@);
                        found.push(s.clone());
                        assert(texts(found@) =~= had.push(s@));
                    },
                    None => {},
                }
                i = i + 1;
            }
            assert(all.take(i as int) =~= all);
            text_or_null(join(&found, ",").as_str())
        },
        None => Cell::Null,
    }
}

/// The row of a rule.
pub fn rule_cells(m: &RuleMeta) -> (r: Vec<Cell>)
    ensures
        row_view(r@) == rule_row(m@),
{
    let fixable = match m.fixable {
        Some(b) => Cell::Bool(b),
        None => Cell::Null,
    };
    let mut row: Vec<Cell> = Vec::new();
    row.push(said(&m.rule));
    row.push(said(&m.title));
    row.push(said(&m.checks));
    row.push(said(&m.severity));
    row.push(fixable);
    row.push(observed(&m.observations));
    assert(row_view(row@) =~= rule_row(m@));
    row
}

/// The table of a list of rules.
pub fn rules_table(rules: &Vec<RuleMeta>) -> (r: Table)
    ensures
        columns_view(r.columns@) == rules_columns(),
        rows_view(r.rows@) == rules_rows(metas_view(rules@)),
{
    let mut columns: Vec<Column> = Vec::new();
    columns.push(column("rule", ColType::Varchar));
    columns.push(column("title", ColType::Varchar));
    columns.push(column("checks", ColType::Varchar));
    columns.push(column("severity", ColType::Varchar));
    columns.push(column("fixable", ColType::Boolean));
    columns.push(column("observations", ColType::Varchar));
    assert(columns_view(columns@) =~= rules_columns());
    let ghost want = rules_rows(metas_view(rules@));
    let mut rows: Vec<Vec<Cell>> = Vec::new();
    let mut i: usize = 0;
    while i < rules.len()
        invariant
            i <= rules@.len(),
            want == rules_rows(metas_view(rules@)),
            rows@.len() == i,
            forall|k: int| 0 <= k < i ==> row_view((#[trigger] rows@[k])@) == want[k],
        decreases rules@.len() - i,
    {
        rows.push(rule_cells(&rules[i]));
        i = i + 1;
    }
    assert(rows_view(rows@) =~= want);
    Table { columns, rows }
}

/// Whether a list is the catalogue, place by place.
pub open spec fn is_catalogue(rules: Seq<RuleView>) -> bool {
    forall|i: nat| #[trigger]
        rule_at(i) == if i < rules.len() {
            Some(rules[i as int])
        } else {
            None
        }
}

/// The rules of the catalogue, in its order.
pub open spec fn whole_catalogue() -> Seq<RuleView> {
    choose|rules: Seq<RuleView>| is_catalogue(rules)
}

proof fn lemma_whole_catalogue(rules: Seq<RuleView>)
    requires
        is_catalogue(rules),
    ensures
        whole_catalogue() == rules,
        is_catalogue(whole_catalogue()),
{
    let other = whole_catalogue();
    assert(is_catalogue(other));
    if other.len() < rules.len() {
        assert(rule_at(other.len()) is None);
    } else if rules.len() < other.len() {
        assert(rule_at(rules.len()) is None);
    }
    assert forall|i: int| 0 <= i < rules.len() implies other[i] == rules[i] by {
        assert(rule_at(i as nat) == Some(rules[i]));
    }
    assert(other =~= rules);
}

/// `ags_rules()`: the catalogue of rules, one row for each.
pub fn ags_rules() -> (r: Table)
    ensures
        is_catalogue(whole_catalogue()),
        forall|i: nat| #[trigger]
            rule_at(i) == if i < whole_catalogue().len() {
                Some(whole_catalogue()[i as int])
            } else {
                None
            },
        columns_view(r.columns@) == rules_columns(),
        rows_view(r.rows@) == rules_rows(whole_catalogue()),
{
    let rules = rule_catalogue();
    proof {
        let list = metas_view(rules@);
        assert forall|i: nat| #[trigger] rule_at(i) == if i < list.len() {
            Some(list[i as int])
        } else {
            None
        } by {
        }
        lemma_whole_catalogue(list);
    }
    rules_table(&rules)
}

/// Every row of `ags_rules` has a cell for each column, and each cell fits its
/// column.
pub proof fn rules_are_well_typed(rules: Seq<RuleView>)
    ensures
        well_typed(rules_columns(), rules_rows(rules)),
{
}

/// The row of a rule shows what the catalogue says of it, cell by cell: the rule, its
/// title, what it checks and its severity, each null where it is not given or empty,
/// whether it can be fixed, null where that is not said, and its observations, joined by
/// commas.
pub proof fn a_rule_is_shown_as_it_is(rules: Seq<RuleView>, i: int)
    requires
        0 <= i < rules.len(),
    ensures
        rules_rows(rules).len() == rules.len(),
        ({
            let m = rules[i];
            let row = rules_rows(rules)[i];
            &&& row.len() == 6
            &&& row[0] == if m.rule is Some && m.rule->Some_0.len() > 0 {
                CellView::Str(m.rule->Some_0)
            } else {
                CellView::Null
            }
            &&& row[1] == if m.title is Some && m.title->Some_0.len() > 0 {
                CellView::Str(m.title->Some_0)
            } else {
                CellView::Null
            }
            &&& row[2] == if m.checks is Some && m.checks->Some_0.len() > 0 {
                CellView::Str(m.checks->Some_0)
            } else {
                CellView::Null
            }
            &&& row[3] == if m.severity is Some && m.severity->Some_0.len() > 0 {
                CellView::Str(m.severity->Some_0)
            } else {
                CellView::Null
            }
            &&& row[4] == match m.fixable {
                Some(b) => CellView::Bool(b),
                None => CellView::Null,
            }
            &&& match m.observations {
                Some(list) => row[5] == if joined(present(list), ","@).len() > 0 {
                    CellView::Str(joined(present(list), ","@))
                } else {
                    CellView::Null
                },
                None => row[5] is Null,
            }
        }),
{
}

/// The observations of a rule are all those that are texts, in their order, joined by
/// commas: null where there are none, or nothing in them.
pub proof fn a_rule_shows_all_its_observations(
    rules: Seq<RuleView>,
    i: int,
    observed: Seq<Seq<char>>,
    list: Seq<Option<Seq<char>>>,
    s: Seq<char>,
)
    requires
        0 <= i < rules.len(),
        rules[i].observations == Some(
            Seq::new(observed.len(), |k: int| Some::<Seq<char>>(observed[k])),
        ),
    ensures
        rules_rows(rules)[i][5] == if joined(observed, ","@).len() > 0 {
            CellView::Str(joined(observed, ","@))
        } else {
            CellView::Null
        },
        present(Seq::empty()).len() == 0,
        present(list.push(Some(s))) == present(list).push(s),
        present(list.push(None)) == present(list),
{
    lemma_all_present(observed);
    assert(list.push(Some(s)).drop_last() =~= list);
    assert(list.push(None).drop_last() =~= list);
}

proof fn lemma_all_present(observed: Seq<Seq<char>>)
    ensures
        present(Seq::new(observed.len(), |k: int| Some::<Seq<char>>(observed[k]))) == observed,
    decreases observed.len(),
{
    let list = Seq::new(observed.len(), |k: int| Some::<Seq<char>>(observed[k]));
    if observed.len() > 0 {
        let rest = observed.drop_last();
        lemma_all_present(rest);
        assert(list.drop_last() =~= Seq::new(rest.len(), |k: int| Some::<Seq<char>>(rest[k])));
        assert(rest.push(observed.last()) =~= observed);
    } else {
        assert(present(list) =~= observed);
    }
}

/// The columns of `ags_rules` by name, in their order.
pub proof fn rules_columns_by_name()
    ensures
        rules_columns().map_values(|c: (Seq<char>, ColType)| c.0) == seq![
            "rule"@,
            "title"@,
            "checks"@,
            "severity"@,
            "fixable"@,
            "observations"@,
        ],
{
}

} // verus!
