//! A file's own structure as tables: its groups, and the headings of each, with
//! what the standard dictionary says of them, or else the file's own.

use vstd::prelude::*;

use crate::ags::{
    codes, every_code_names_its_group, file_wf, group_of, AgsGroup, GroupView, ParsedAgs4,
};
use crate::file_dict::{
    dict_status, file_dict_of, file_parent, file_parents, file_statuses, parents, stated_parent,
    statuses,
};
use crate::read_ags::{bound_rows, group_columns, item_at, item_of, Binding};
use crate::registry::{
    a_chain_takes_the_key_headings, headings_view, key_chain, key_names, opt_desc, registry_get,
    standard, DescView, GroupDesc, HeadingView,
};
use crate::table::{
    column, columns_view, fits, nonempty_cell, opt_cell, option_cell, row_view, rows_view, str_cell,
    text_or_null, well_typed, Cell, CellView, ColType, Column, Table,
};
use crate::text::{has_key, mentions_key, opt_text, same};
use crate::typing::{category, column_agrees_with_sql_name, sql_name, sql_type};

verus! {

/// The columns of `ags_groups`.
pub open spec fn groups_columns() -> Seq<(Seq<char>, ColType)> {
    seq![
        ("group"@, ColType::Varchar),
        ("n_rows"@, ColType::BigInt),
        ("n_headings"@, ColType::BigInt),
        ("parent"@, ColType::Varchar),
    ]
}

/// The parent of a group: the standard dictionary's where that gives one, else the
/// file's own.
pub open spec fn effective_parent(
    desc: Option<DescView>,
    declared: Option<Seq<char>>,
) -> Option<Seq<char>> {
    if desc is Some && desc->Some_0.parent is Some {
        desc->Some_0.parent
    } else {
        declared
    }
}

/// The row of a group in `ags_groups`.
pub open spec fn group_summary(
    g: GroupView,
    desc: Option<DescView>,
    declared: Option<Seq<char>>,
) -> Seq<CellView> {
    seq![
        CellView::Str(g.code),
        CellView::Int(g.rows.len() as i64),
        CellView::Int(g.headings.len() as i64),
        opt_cell(effective_parent(desc, declared)),
    ]
}

/// The row of a group, from what the dictionaries say of it.
pub fn summarize(g: &AgsGroup, desc: &Option<GroupDesc>, declared: &Option<String>) -> (r: Vec<Cell>)
    ensures
        row_view(r@) == group_summary(g@, opt_desc(*desc), opt_text(*declared)),
{
    let parent = match desc {
        Some(d) => match &d.parent {
            Some(p) => str_cell(p.as_str()),
            None => option_cell(declared),
        },
        None => option_cell(declared),
    };
    let mut row: Vec<Cell> = Vec::new();
    row.push(str_cell(g.code.as_str()));
    row.push(
        Cell::Int(
            #[verifier::truncate]
            (g.rows.len() as i64),
        ),
    );
    row.push(
        Cell::Int(
            #[verifier::truncate]
            (g.headings.len() as i64),
        ),
    );
    row.push(parent);
    assert(row_view(row@) =~= group_summary(g@, opt_desc(*desc), opt_text(*declared)));
    row
}

/// The rows of `ags_groups`: one for each group of the file, in file order.
pub open spec fn groups_rows(file: Seq<GroupView>) -> Seq<Seq<CellView>> {
    Seq::new(
        file.len(),
        |i: int|
            group_summary(
                file[i],
                standard(file[i].code),
                stated_parent(file_parents(file).get(file[i].code)),
            ),
    )
}

/// `ags_groups(path)`: the groups of a file.
pub fn ags_groups(parsed: &ParsedAgs4) -> (r: Table)
    requires
        file_wf(parsed@),
    ensures
        columns_view(r.columns@) == groups_columns(),
        rows_view(r.rows@) == groups_rows(parsed@),
{
    let dict = file_dict_of(parsed);
    let mut columns: Vec<Column> = Vec::new();
    columns.push(column("group", ColType::Varchar));
    columns.push(column("n_rows", ColType::BigInt));
    columns.push(column("n_headings", ColType::BigInt));
    columns.push(column("parent", ColType::Varchar));
    assert(columns_view(columns@) =~= groups_columns());
    let mut rows: Vec<Vec<Cell>> = Vec::new();
    let mut i: usize = 0;
    while i < parsed.groups.len()
        invariant
            i <= parsed.groups@.len(),
            parents(dict) == file_parents(parsed@),
            rows@.len() == i,
            forall|k: int| 0 <= k < i ==> row_view((#[trigger] rows@[k])@) == groups_rows(parsed@)[k],
        decreases parsed.groups@.len() - i,
    {
        let g = &parsed.groups[i];
        assert(parsed@[i as int] == g@);
        let desc = registry_get(g.code.as_str());
        let declared = file_parent(&dict, g.code.as_str());
        rows.push(summarize(g, &desc, &declared));
        i = i + 1;
    }
    assert(rows_view(rows@) =~= groups_rows(parsed@));
    Table { columns, rows }
}

/// The columns of `ags_headings`.
pub open spec fn headings_columns() -> Seq<(Seq<char>, ColType)> {
    seq![
        ("group"@, ColType::Varchar),
        ("heading"@, ColType::Varchar),
        ("unit"@, ColType::Varchar),
        ("ags_type"@, ColType::Varchar),
        ("sql_type"@, ColType::Varchar),
        ("status"@, ColType::Varchar),
        ("is_key"@, ColType::Boolean),
        ("ordinal"@, ColType::BigInt),
    ]
}

/// The heading of the given name in a dictionary's list.
pub open spec fn heading_named(headings: Seq<HeadingView>, name: Seq<char>) -> Option<HeadingView>
    decreases headings.len(),
{
    if headings.len() == 0 {
        None
    } else if headings[0].name == name {
        Some(headings[0])
    } else {
        heading_named(headings.drop_first(), name)
    }
}

/// The status of a heading, and whether it is a key: what the standard dictionary
/// says, else what the file declares, else `OTHER` and no key.
pub open spec fn effective_status(
    desc: Option<DescView>,
    declared: Option<Seq<char>>,
    name: Seq<char>,
) -> (Seq<char>, bool) {
    let listed = match desc {
        Some(d) => heading_named(d.headings, name),
        None => None,
    };
    match listed {
        Some(h) => (h.status, h.is_key),
        None => match declared {
            Some(s) => (s, mentions_key(s)),
            None => ("OTHER"@, false),
        },
    }
}

fn listed_status(desc: &Option<GroupDesc>, name: &str) -> (r: Option<(String, bool)>)
    ensures
        match opt_desc(*desc) {
            Some(d) => match heading_named(d.headings, name@) {
                Some(h) => r is Some && r->Some_0.0@ == h.status && r->Some_0.1 == h.is_key,
                None => r is None,
            },
            None => r is None,
        },
{
    match desc {
        Some(d) => {
            let ghost all = headings_view(d.headings@);
            let mut i: usize = 0;
            assert(all.skip(0) =~= all);
            while i < d.headings.len()
                invariant
                    i <= d.headings@.len(),
                    all == headings_view(d.headings@),
                    opt_desc(*desc) == Some(d@),
                    heading_named(all, name@) == heading_named(all.skip(i as int), name@),
                decreases d.headings@.len() - i,
            {
                assert(all.skip(i as int)[0] == d.headings@[i as int]@);
                if same(d.headings[i].name.as_str(), name) {
                    return Some((d.headings[i].status.clone(), d.headings[i].is_key));
                }
                assert(all.skip(i as int).drop_first() =~= all.skip(i + 1));
                i = i + 1;
            }
            None
        },
        None => None,
    }
}

/// The status of a heading, and whether it is a key, from what the dictionaries
/// say of it.
pub fn status_of(desc: &Option<GroupDesc>, declared: Option<String>, name: &str) -> (r: (String, bool))
    ensures
        (r.0@, r.1) == effective_status(opt_desc(*desc), opt_text(declared), name@),
        desc is Some ==> forall|k: int|
            {
                &&& 0 <= k < desc->Some_0@.headings.len()
                &&& (#[trigger] desc->Some_0@.headings[k]).name == name@
                &&& forall|j: int|
                    0 <= j < k ==> (#[trigger] desc->Some_0@.headings[j]).name != name@
            } ==> r.0@ == desc->Some_0@.headings[k].status && r.1
                == desc->Some_0@.headings[k].is_key,
{
    proof {
        if desc is Some {
            let all = desc->Some_0@.headings;
            assert forall|k: int|
                {
                    &&& 0 <= k < all.len()
                    &&& (#[trigger] all[k]).name == name@
                    &&& forall|j: int| 0 <= j < k ==> (#[trigger] all[j]).name != name@
                } implies heading_named(all, name@) == Some(all[k]) by {
                lemma_first_named(all, k);
            }
        }
    }
    match listed_status(desc, name) {
        Some(found) => found,
        None => match declared {
            Some(s) => {
                let key = has_key(s.as_str());
                (s, key)
            },
            None => ("OTHER".to_owned(), false),
        },
    }
}

/// The row of a heading in `ags_headings`.
pub open spec fn heading_row(
    g: GroupView,
    i: int,
    desc: Option<DescView>,
    declared: Option<Seq<char>>,
) -> Seq<CellView> {
    let ags_type = item_at(g.types, i);
    let (status, is_key) = effective_status(desc, declared, g.headings[i]);
    seq![
        CellView::Str(g.code),
        CellView::Str(g.headings[i]),
        nonempty_cell(item_at(g.units, i)),
        CellView::Str(ags_type),
        CellView::Str(sql_name(category(ags_type))),
        CellView::Str(status),
        CellView::Bool(is_key),
        CellView::Int(i as i64),
    ]
}

/// The row of a heading, from what the dictionaries say of it.
pub fn describe(g: &AgsGroup, i: usize, desc: &Option<GroupDesc>, declared: Option<String>) -> (r: Vec<
    Cell,
>)
    requires
        i < g@.headings.len(),
    ensures
        row_view(r@) == heading_row(g@, i as int, opt_desc(*desc), opt_text(declared)),
{
    let ghost said = opt_text(declared);
    let ags_type = item_of(&g.types, i);
    let (status, is_key) = status_of(desc, declared, g.headings[i].as_str());
    let mut row: Vec<Cell> = Vec::new();
    row.push(str_cell(g.code.as_str()));
    row.push(str_cell(g.headings[i].as_str()));
    row.push(text_or_null(item_of(&g.units, i)));
    row.push(str_cell(ags_type));
    row.push(Cell::Str(sql_type(ags_type)));
    row.push(Cell::Str(status));
    row.push(Cell::Bool(is_key));
    row.push(
        Cell::Int(
            #[verifier::truncate]
            (i as i64),
        ),
    );
    assert(row_view(row@) =~= heading_row(g@, i as int, opt_desc(*desc), said));
    row
}

/// The rows of one group in `ags_headings`: one for each heading, in the group's
/// order.
pub open spec fn group_heading_rows(
    g: GroupView,
    declared: Map<(Seq<char>, Seq<char>), Seq<char>>,
) -> Seq<Seq<CellView>> {
    Seq::new(
        g.headings.len(),
        |i: int| heading_row(g, i, standard(g.code), declared.get((g.code, g.headings[i]))),
    )
}

/// The rows of the first `n` groups of a file in `ags_headings`.
pub open spec fn headings_rows(file: Seq<GroupView>, n: int) -> Seq<Seq<CellView>>
    decreases n,
{
    if n <= 0 {
        Seq::empty()
    } else {
        headings_rows(file, n - 1) + group_heading_rows(file[n - 1], file_statuses(file))
    }
}

/// `ags_headings(path)`: the headings of every group of a file, group by group.
pub fn ags_headings(parsed: &ParsedAgs4) -> (r: Table)
    requires
        file_wf(parsed@),
    ensures
        columns_view(r.columns@) == headings_columns(),
        rows_view(r.rows@) == headings_rows(parsed@, parsed@.len() as int),
{
    let dict = file_dict_of(parsed);
    let mut columns: Vec<Column> = Vec::new();
    columns.push(column("group", ColType::Varchar));
    columns.push(column("heading", ColType::Varchar));
    columns.push(column("unit", ColType::Varchar));
    columns.push(column("ags_type", ColType::Varchar));
    columns.push(column("sql_type", ColType::Varchar));
    columns.push(column("status", ColType::Varchar));
    columns.push(column("is_key", ColType::Boolean));
    columns.push(column("ordinal", ColType::BigInt));
    assert(columns_view(columns@) =~= headings_columns());
    let mut rows: Vec<Vec<Cell>> = Vec::new();
    let mut n: usize = 0;
    assert(rows_view(rows@) =~= Seq::empty());
    while n < parsed.groups.len()
        invariant
            n <= parsed.groups@.len(),
            statuses(dict) == file_statuses(parsed@),
            rows_view(rows@) == headings_rows(parsed@, n as int),
        decreases parsed.groups@.len() - n,
    {
        let g = &parsed.groups[n];
        let ghost done = rows_view(rows@);
        let ghost more = group_heading_rows(g@, file_statuses(parsed@));
        assert(parsed@[n as int] == g@);
        let desc = registry_get(g.code.as_str());
        let mut i: usize = 0;
        assert(more.take(0) =~= Seq::empty());
        assert(done + more.take(0) =~= done);
        while i < g.headings.len()
            invariant
                i <= g.headings@.len(),
                statuses(dict) == file_statuses(parsed@),
                opt_desc(desc) == standard(g@.code),
                more == group_heading_rows(g@, file_statuses(parsed@)),
                rows_view(rows@) == done + more.take(i as int),
            decreases g.headings@.len() - i,
        {
            let declared = dict_status(&dict, g.code.as_str(), g.headings[i].as_str());
            let row = describe(g, i, &desc, declared);
            let ghost had = rows_view(rows@);
            assert(row_view(row@) == more[i as int]);
            rows.push(row);
            assert(rows_view(rows@) =~= had.push(more[i as int]));
            assert(done + more.take(i + 1) =~= (done + more.take(i as int)).push(more[i as int]));
            i = i + 1;
        }
        assert(more.take(i as int) =~= more);
        n = n + 1;
    }
    Table { columns, rows }
}

/// Every row of `ags_groups` and of `ags_headings` has a cell for each column, and
/// each cell fits its column.
pub proof fn meta_tables_are_well_typed(file: Seq<GroupView>, n: int)
    ensures
        well_typed(groups_columns(), groups_rows(file)),
        well_typed(headings_columns(), headings_rows(file, n)),
    decreases n,
{
    if n > 0 {
        meta_tables_are_well_typed(file, n - 1);
        let before = headings_rows(file, n - 1);
        let more = group_heading_rows(file[n - 1], file_statuses(file));
        let all = headings_rows(file, n);
        let columns = headings_columns();
        assert forall|r: int| 0 <= r < all.len() implies {
            &&& (#[trigger] all[r]).len() == columns.len()
            &&& forall|c: int| 0 <= c < columns.len() ==> fits(#[trigger] all[r][c], columns[c].1)
        } by {
            if r < before.len() {
                assert(all[r] == before[r]);
            } else {
                assert(all[r] == more[r - before.len()]);
            }
        }
    }
}

/// What `ags_groups` says of a group is what a read of it gives: as many rows, and a
/// column for each heading beside the three that every group has.
pub proof fn groups_are_counted_as_they_are_read(file: Seq<GroupView>, i: int, binding: Binding)
    requires
        file_wf(file),
        0 <= i < file.len(),
    ensures
        group_of(file, file[i].code) == Some(file[i]),
        groups_rows(file)[i][0] == CellView::Str(file[i].code),
        groups_rows(file)[i][1] == CellView::Int(
            bound_rows(file[i], file[i].code, binding).len() as i64,
        ),
        groups_rows(file)[i][2] == CellView::Int((group_columns(file[i]).len() - 3) as i64),
{
    every_code_names_its_group(file, i);
    assert(codes(file)[i] == file[i].code);
}

/// What `ags_headings` says of a typed heading is how a read types it: the SQL type
/// named is that of the column, for numbers and truth values, and text or a time
/// where the column is text.
pub proof fn headings_are_typed_as_they_are_read(
    g: GroupView,
    i: int,
    desc: Option<DescView>,
    declared_status: Option<Seq<char>>,
)
    requires
        0 <= i < g.headings.len(),
        i < g.types.len(),
    ensures
        ({
            let named = heading_row(g, i, desc, declared_status)[4];
            let (name, ty) = group_columns(g)[i + 2];
            &&& name == g.headings[i]
            &&& heading_row(g, i, desc, declared_status)[1] == CellView::Str(name)
            &&& ty == ColType::Double <==> named == CellView::Str("DOUBLE"@)
            &&& ty == ColType::BigInt <==> named == CellView::Str("BIGINT"@)
            &&& ty == ColType::Boolean <==> named == CellView::Str("BOOLEAN"@)
        }),
{
    column_agrees_with_sql_name(category(g.types[i]));
}

proof fn lemma_first_named(headings: Seq<HeadingView>, k: int)
    requires
        0 <= k < headings.len(),
        forall|j: int| 0 <= j < k ==> (#[trigger] headings[j]).name != headings[k].name,
    ensures
        heading_named(headings, headings[k].name) == Some(headings[k]),
    decreases headings.len(),
{
    if k > 0 {
        let rest = headings.drop_first();
        assert(headings[0].name != headings[k].name);
        assert forall|j: int| 0 <= j < k - 1 implies (#[trigger] rest[j]).name != rest[k - 1].name by {
            assert(headings[j + 1].name != headings[k].name);
        }
        lemma_first_named(rest, k - 1);
    }
}

proof fn lemma_none_named(headings: Seq<HeadingView>, name: Seq<char>)
    requires
        forall|j: int| 0 <= j < headings.len() ==> (#[trigger] headings[j]).name != name,
    ensures
        heading_named(headings, name) is None,
    decreases headings.len(),
{
    if headings.len() > 0 {
        let rest = headings.drop_first();
        assert forall|j: int| 0 <= j < rest.len() implies (#[trigger] rest[j]).name != name by {
            assert(headings[j + 1].name != name);
        }
        lemma_none_named(rest, name);
    }
}

proof fn lemma_headings_row(file: Seq<GroupView>, all: int, n: int, i: int)
    requires
        0 <= n < all <= file.len(),
        0 <= i < file[n].headings.len(),
    ensures
        headings_rows(file, n + 1).len() == headings_rows(file, n).len() + file[n].headings.len(),
        headings_rows(file, n).len() + i < headings_rows(file, all).len(),
        headings_rows(file, all)[headings_rows(file, n).len() + i] == heading_row(
            file[n],
            i,
            standard(file[n].code),
            file_statuses(file).get((file[n].code, file[n].headings[i])),
        ),
    decreases all,
{
    if n < all - 1 {
        lemma_headings_row(file, all - 1, n, i);
    }
}

/// The headings of a file come group by group in file order, and in each group in its
/// own order: as many rows as the groups have headings, each with its group's code, its
/// name and its place.
pub proof fn headings_come_in_file_order(file: Seq<GroupView>, n: int, i: int)
    requires
        0 <= n < file.len(),
        0 <= i < file[n].headings.len(),
    ensures
        headings_rows(file, 0).len() == 0,
        headings_rows(file, n + 1).len() == headings_rows(file, n).len() + file[n].headings.len(),
        headings_rows(file, n).len() + i < headings_rows(file, file.len() as int).len(),
        ({
            let row = headings_rows(file, file.len() as int)[headings_rows(file, n).len() + i];
            &&& row.len() == 8
            &&& row[0] == CellView::Str(file[n].code)
            &&& row[1] == CellView::Str(file[n].headings[i])
            &&& row[7] == CellView::Int(i as i64)
        }),
{
    lemma_headings_row(file, file.len() as int, n, i);
}

/// What is said of a heading's unit and type is what its own group gives for it: the
/// unit, null where that is empty or not given; the type code, empty where it is not
/// given; and the name of the SQL type of that code.
pub proof fn a_heading_has_the_unit_and_type_of_its_file(file: Seq<GroupView>, n: int, i: int)
    requires
        0 <= n < file.len(),
        0 <= i < file[n].headings.len(),
    ensures
        ({
            let g = file[n];
            let row = headings_rows(file, file.len() as int)[headings_rows(file, n).len() + i];
            let t = if i < g.types.len() {
                g.types[i]
            } else {
                Seq::<char>::empty()
            };
            &&& row[2] == if i < g.units.len() && g.units[i].len() > 0 {
                CellView::Str(g.units[i])
            } else {
                CellView::Null
            }
            &&& row[3] == CellView::Str(t)
            &&& row[4] == CellView::Str(sql_name(category(t)))
        }),
{
    lemma_headings_row(file, file.len() as int, n, i);
}

/// A heading that the standard dictionary lists in its group has the status and the key
/// flag that the dictionary gives it, the first of its name; whatever the file declares.
pub proof fn a_standard_heading_has_its_standard_status(
    file: Seq<GroupView>,
    n: int,
    i: int,
    k: int,
)
    requires
        0 <= n < file.len(),
        0 <= i < file[n].headings.len(),
        standard(file[n].code) is Some,
        0 <= k < standard(file[n].code)->Some_0.headings.len(),
        standard(file[n].code)->Some_0.headings[k].name == file[n].headings[i],
        forall|j: int|
            0 <= j < k ==> (#[trigger] standard(file[n].code)->Some_0.headings[j]).name
                != file[n].headings[i],
    ensures
        ({
            let h = standard(file[n].code)->Some_0.headings[k];
            let row = headings_rows(file, file.len() as int)[headings_rows(file, n).len() + i];
            &&& row[5] == CellView::Str(h.status)
            &&& row[6] == CellView::Bool(h.is_key)
        }),
{
    lemma_headings_row(file, file.len() as int, n, i);
    lemma_first_named(standard(file[n].code)->Some_0.headings, k);
}

/// A heading that the standard dictionary lists in its group is said to be a key only
/// where it is one of the group's key headings, those that a row's `_id` is made of.
pub proof fn only_a_key_heading_is_a_key(file: Seq<GroupView>, n: int, i: int, k: int)
    requires
        0 <= n < file.len(),
        0 <= i < file[n].headings.len(),
        standard(file[n].code) is Some,
        0 <= k < standard(file[n].code)->Some_0.headings.len(),
        standard(file[n].code)->Some_0.headings[k].name == file[n].headings[i],
        forall|j: int|
            0 <= j < k ==> (#[trigger] standard(file[n].code)->Some_0.headings[j]).name
                != file[n].headings[i],
        !key_names(standard(file[n].code)->Some_0.headings).contains(file[n].headings[i]),
    ensures
        headings_rows(file, file.len() as int)[headings_rows(file, n).len() + i][6]
            == CellView::Bool(false),
{
    a_standard_heading_has_its_standard_status(file, n, i, k);
    a_chain_takes_the_key_headings(
        standard(file[n].code)->Some_0.headings,
        file[n].headings,
        Seq::empty(),
        file[n].headings[i],
    );
}

/// A heading that the standard dictionary does not list in its group has the status that
/// the file's own dictionary declares, a key where that mentions `KEY`; one that neither
/// lists is `OTHER` and no key.
pub proof fn another_heading_has_its_declared_status(file: Seq<GroupView>, n: int, i: int)
    requires
        0 <= n < file.len(),
        0 <= i < file[n].headings.len(),
        standard(file[n].code) is Some ==> forall|j: int|
            0 <= j < standard(file[n].code)->Some_0.headings.len() ==> (
            #[trigger] standard(file[n].code)->Some_0.headings[j]).name != file[n].headings[i],
    ensures
        ({
            let row = headings_rows(file, file.len() as int)[headings_rows(file, n).len() + i];
            match file_statuses(file).get((file[n].code, file[n].headings[i])) {
                Some(s) => row[5] == CellView::Str(s) && row[6] == CellView::Bool(mentions_key(s)),
                None => row[5] == CellView::Str("OTHER"@) && row[6] == CellView::Bool(false),
            }
        }),
{
    lemma_headings_row(file, file.len() as int, n, i);
    if standard(file[n].code) is Some {
        lemma_none_named(standard(file[n].code)->Some_0.headings, file[n].headings[i]);
    }
}

/// The groups of a file come one by one in file order, each with its code, how many rows
/// and headings it has, and its parent: the standard dictionary's where that gives one,
/// else the one that the file declares, where that is not empty or `-`.
pub proof fn a_group_is_summarized_by_its_own_content(file: Seq<GroupView>, i: int)
    requires
        0 <= i < file.len(),
    ensures
        groups_rows(file).len() == file.len(),
        ({
            let g = file[i];
            let row = groups_rows(file)[i];
            let own = file_parents(file).get(g.code);
            &&& row.len() == 4
            &&& row[0] == CellView::Str(g.code)
            &&& row[1] == CellView::Int(g.rows.len() as i64)
            &&& row[2] == CellView::Int(g.headings.len() as i64)
            &&& row[3] == if standard(g.code) is Some && standard(g.code)->Some_0.parent is Some {
                CellView::Str(standard(g.code)->Some_0.parent->Some_0)
            } else if own is Some && own->Some_0.len() > 0 && own->Some_0 != "-"@ {
                CellView::Str(own->Some_0)
            } else {
                CellView::Null
            }
        }),
{
}

/// The columns of `ags_groups` and of `ags_headings` by name, in their order.
pub proof fn meta_columns_by_name()
    ensures
        groups_columns().map_values(|c: (Seq<char>, ColType)| c.0) == seq![
            "group"@,
            "n_rows"@,
            "n_headings"@,
            "parent"@,
        ],
        headings_columns().map_values(|c: (Seq<char>, ColType)| c.0) == seq![
            "group"@,
            "heading"@,
            "unit"@,
            "ags_type"@,
            "sql_type"@,
            "status"@,
            "is_key"@,
            "ordinal"@,
        ],
{
}

/// A heading that the standard dictionary lists once in its group is said to be a key
/// just where a row's identifier takes its value.
pub proof fn a_key_is_what_an_identifier_takes(
    file: Seq<GroupView>,
    n: int,
    i: int,
    k: int,
    row: Seq<Seq<char>>,
)
    requires
        0 <= n < file.len(),
        0 <= i < file[n].headings.len(),
        standard(file[n].code) is Some,
        0 <= k < standard(file[n].code)->Some_0.headings.len(),
        standard(file[n].code)->Some_0.headings[k].name == file[n].headings[i],
        forall|j: int|
            0 <= j < standard(file[n].code)->Some_0.headings.len() && j != k ==> (
            #[trigger] standard(file[n].code)->Some_0.headings[j]).name != file[n].headings[i],
    ensures
        headings_rows(file, file.len() as int)[headings_rows(file, n).len() + i][6]
            == CellView::Bool(
            exists|c: int|
                0 <= c < key_chain(
                    standard(file[n].code)->Some_0.headings,
                    file[n].headings,
                    row,
                ).len() && (#[trigger] key_chain(
                    standard(file[n].code)->Some_0.headings,
                    file[n].headings,
                    row,
                )[c]).0 == file[n].headings[i],
        ),
{
    let dict = standard(file[n].code)->Some_0.headings;
    let name = file[n].headings[i];
    let chain = key_chain(dict, file[n].headings, row);
    a_standard_heading_has_its_standard_status(file, n, i, k);
    a_chain_takes_the_key_headings(dict, file[n].headings, row, name);
    if dict[k].is_key {
        let c = choose|c: int| 0 <= c < key_names(dict).len() && key_names(dict)[c] == name;
        assert(chain[c].0 == name);
    }
    if exists|c: int| 0 <= c < chain.len() && (#[trigger] chain[c]).0 == name {
        let c = choose|c: int| 0 <= c < chain.len() && (#[trigger] chain[c]).0 == name;
        assert(key_names(dict)[c] == name);
    }
}

} // verus!
