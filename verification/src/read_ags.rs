//! One group of a file as a typed, keyed table.

use vstd::prelude::*;
use vstd::string::*;

use crate::ags::{
    a_code_finds_its_first_group, codec, codes, every_code_names_its_group, file_wf, group_of,
    group_wf, parse_view, read_ags4_bytes, AgsGroup, GroupView, ParsedAgs4,
};
use crate::cert::{
    says_declared, slice_of, slice_plan, sliced, sliced_group, IndexView, Sidecar,
};
use crate::file_dict::{dict_touches, file_dict_of, file_parents, file_statuses, touches};
use crate::registry::{
    cells_view, content_hash, content_id, group_row_ids, is_uuid8, key_chain, own_id, parent_id,
    registry_get, standard, value_hash, DescView,
};
use crate::table::{
    column, columns_view, fits, opt_cell, option_cell, row_view, rows_view, str_cell, well_typed,
    Cell, CellView, ColType, Column, Table,
};
use crate::text::{join, joined, opt_text, same, texts, trim, trimmed, upper};
use crate::typing::{
    a_cell_shows_its_value, a_column_is_typed_by_its_category, category, cell_for, cell_of, declared,
    emit_of, typed, Category, Emit, TypedView,
};

verus! {

/// How a group of a file is bound.
#[derive(Clone, Copy, Debug, PartialEq, Eq, Structural)]
pub enum Binding {
    /// A group of the standard dictionary: its rows have identifiers, made of its
    /// key headings.
    Keyed,
    /// A group that only the file itself declares: its rows have none.
    Unkeyed,
}

/// Names, each kept once.
pub struct NamePool {
    pub names: Vec<String>,
}

impl NamePool {
    /// No name is kept twice.
    pub open spec fn wf(&self) -> bool {
        texts(self.names@).no_duplicates()
    }

    /// No names yet.
    pub fn new() -> (r: NamePool)
        ensures
            r.wf(),
            r.names@.len() == 0,
    {
        NamePool { names: Vec::new() }
    }
}

/// The place of a name in the pool, where it is kept from then on. The place of a
/// name never changes, and a name that is kept already is not kept again.
pub fn intern(pool: &mut NamePool, name: &str) -> (r: usize)
    requires
        old(pool).wf(),
    ensures
        final(pool).wf(),
        r < final(pool).names@.len(),
        final(pool).names@[r as int]@ == name@,
        texts(old(pool).names@).contains(name@) ==> final(pool).names@ == old(pool).names@,
        !texts(old(pool).names@).contains(name@) ==> texts(final(pool).names@) == texts(
            old(pool).names@,
        ).push(name@),
        forall|i: int| 0 <= i < old(pool).names@.len() ==> final(pool).names@[i] == old(pool).names@[i],
{
    let ghost had = texts(pool.names@);
    let mut i: usize = 0;
    while i < pool.names.len()
        invariant
            i <= pool.names@.len(),
            *pool == *old(pool),
            had == texts(pool.names@),
            forall|j: int| 0 <= j < i ==> #[trigger] had[j] != name@,
            pool.wf(),
        decreases pool.names@.len() - i,
    {
        assert(had[i as int] == pool.names@[i as int]@);
        if same(pool.names[i].as_str(), name) {
            assert(had.contains(name@));
            return i;
        }
        i = i + 1;
    }
    assert(!had.contains(name@));
    pool.names.push(name.to_owned());
    assert(texts(pool.names@) =~= had.push(name@));
    i
}

/// The type code of a heading of a group: `X`, free text, behind the end of the
/// group's `TYPE` row.
pub open spec fn type_at(g: GroupView, i: int) -> Seq<char> {
    if i < g.types.len() {
        g.types[i]
    } else {
        "X"@
    }
}

/// The item of a row of descriptors: empty behind its end.
pub open spec fn item_at(row: Seq<Seq<char>>, i: int) -> Seq<char> {
    if i < row.len() {
        row[i]
    } else {
        Seq::empty()
    }
}

/// The kind that a heading of a group is emitted as.
pub open spec fn kind_at(g: GroupView, i: int) -> Emit {
    emit_of(category(type_at(g, i)))
}

/// The columns of a group's table: the two identifiers, one for each heading as
/// its type has it, and the fingerprint.
pub open spec fn group_columns(g: GroupView) -> Seq<(Seq<char>, ColType)> {
    seq![("_id"@, ColType::Varchar), ("_parent_id"@, ColType::Varchar)] + Seq::new(
        g.headings.len(),
        |i: int| (g.headings[i], declared(kind_at(g, i))),
    ) + seq![("_content_hash"@, ColType::Varchar)]
}

/// The cells that a row's fingerprint is made of.
pub open spec fn hashed_cells(g: GroupView, r: int) -> Seq<
    (Seq<char>, Seq<char>, Seq<char>, Seq<char>),
> {
    Seq::new(
        g.headings.len(),
        |i: int| (g.headings[i], item_at(g.units, i), item_at(g.types, i), g.rows[r][i]),
    )
}

/// The cell of a heading in a row.
pub open spec fn heading_cell(g: GroupView, r: int, i: int) -> CellView {
    cell_of(typed(Some(g.rows[r][i]), type_at(g, i)), kind_at(g, i))
}

/// A row of a group's table, with the given identifiers.
pub open spec fn group_row(
    g: GroupView,
    code: Seq<char>,
    r: int,
    id: CellView,
    parent: CellView,
) -> Seq<CellView> {
    seq![id, parent] + Seq::new(g.headings.len(), |i: int| heading_cell(g, r, i)) + seq![
        CellView::Str(value_hash(code, hashed_cells(g, r))),
    ]
}

/// The identifiers of the rows of a group: for each row its own, and that of the
/// row it belongs to.
pub type Ids = Seq<(Seq<char>, Option<Seq<char>>)>;

/// What a list of identifiers holds.
pub open spec fn ids_view(ids: Seq<(String, Option<String>)>) -> Ids {
    Seq::new(ids.len(), |i: int| (ids[i].0@, opt_text(ids[i].1)))
}

/// What an optional list of identifiers holds.
pub open spec fn opt_ids(ids: Option<Vec<(String, Option<String>)>>) -> Option<Ids> {
    match ids {
        Some(v) => Some(ids_view(v@)),
        None => None,
    }
}

/// The rows of a group's table, with the identifiers where there are any.
pub open spec fn group_rows(g: GroupView, code: Seq<char>, ids: Option<Ids>) -> Seq<Seq<CellView>> {
    Seq::new(
        g.rows.len(),
        |r: int|
            match ids {
                Some(v) => group_row(g, code, r, CellView::Str(v[r].0), opt_cell(v[r].1)),
                None => group_row(g, code, r, CellView::Null, CellView::Null),
            },
    )
}

/// Whether a cell shows a raw value under a type code as it is written, so far as that
/// needs no number, time or truth value to be read: null where the value is blank, and
/// the value without the whitespace around it where the code is one of text.
pub open spec fn written(v: Seq<char>, t: Seq<char>, c: CellView) -> bool {
    &&& trimmed(v).len() == 0 ==> c is Null
    &&& trimmed(v).len() > 0 && (category(t) is None || category(t) == Some(Category::Text)
        || category(t) == Some(Category::Enum)) ==> c == CellView::Str(trimmed(v))
}

/// Whether the rows of a group's table show the group's values as they are written, each
/// row its own.
pub open spec fn as_written(g: GroupView, rows: Seq<Seq<CellView>>) -> bool {
    forall|r: int, i: int|
        0 <= r < g.rows.len() && 0 <= i < g.headings.len() ==> written(
            #[trigger] g.rows[r][i],
            if i < g.types.len() {
                g.types[i]
            } else {
                "X"@
            },
            rows[r][i + 2],
        )
}

/// Whether a cell is null or holds a UUID.
pub open spec fn null_or_uuid(c: CellView) -> bool {
    match c {
        CellView::Null => true,
        CellView::Str(s) => is_uuid8(s),
        _ => false,
    }
}

/// Whether a row of a group's table is identified: its `_id`, its `_parent_id` and its
/// `_content_hash` are UUIDs, and only the first two may be null.
pub open spec fn row_identified(row: Seq<CellView>) -> bool {
    &&& row.len() >= 3
    &&& null_or_uuid(row[0])
    &&& null_or_uuid(row[1])
    &&& row.last() !is Null && null_or_uuid(row.last())
}

/// Whether every row of a group's table is identified.
pub open spec fn identified(rows: Seq<Seq<CellView>>) -> bool {
    forall|r: int| 0 <= r < rows.len() ==> row_identified(#[trigger] rows[r])
}

fn type_of<'a>(ags: &'a AgsGroup, i: usize) -> (r: &'a str)
    ensures
        r@ == type_at(ags@, i as int),
{
    if i < ags.types.len() {
        ags.types[i].as_str()
    } else {
        "X"
    }
}

/// The item of a row of descriptors: empty behind its end.
pub(crate) fn item_of<'a>(row: &'a Vec<String>, i: usize) -> (r: &'a str)
    ensures
        r@ == item_at(texts(row@), i as int),
{
    if i < row.len() {
        row[i].as_str()
    } else {
        proof {
            reveal_strlit("");
            assert(""@ =~= Seq::<char>::empty());
        }
        ""
    }
}

/// The columns of a group's table, and the kind of each heading.
fn plan(ags: &AgsGroup) -> (r: (Vec<Column>, Vec<Emit>))
    ensures
        columns_view(r.0@) == group_columns(ags@),
        r.1@.len() == ags@.headings.len(),
        forall|i: int| 0 <= i < r.1@.len() ==> #[trigger] r.1@[i] == kind_at(ags@, i),
{
    let mut columns: Vec<Column> = Vec::new();
    let mut kinds: Vec<Emit> = Vec::new();
    columns.push(column("_id", ColType::Varchar));
    columns.push(column("_parent_id", ColType::Varchar));
    let mut i: usize = 0;
    while i < ags.headings.len()
        invariant
            i <= ags.headings@.len(),
            columns@.len() == i + 2,
            kinds@.len() == i,
            columns@[0].name@ == "_id"@,
            columns@[0].ty == ColType::Varchar,
            columns@[1].name@ == "_parent_id"@,
            columns@[1].ty == ColType::Varchar,
            forall|j: int| 0 <= j < i ==> #[trigger] kinds@[j] == kind_at(ags@, j),
            forall|j: int|
                0 <= j < i ==> (#[trigger] columns@[j + 2]).name@ == ags@.headings[j]
                    && columns@[j + 2].ty == declared(kind_at(ags@, j)),
        decreases ags.headings@.len() - i,
    {
        let kind = Emit::of(type_of(ags, i));
        columns.push(column(ags.headings[i].as_str(), kind.col_type()));
        kinds.push(kind);
        i = i + 1;
    }
    columns.push(column("_content_hash", ColType::Varchar));
    proof {
        let n = ags@.headings.len() as int;
        let view = columns_view(columns@);
        assert forall|k: int| 0 <= k < view.len() implies #[trigger] view[k] == group_columns(
            ags@,
        )[k] by {
            if 2 <= k < n + 2 {
                assert(columns@[(k - 2) + 2].name@ == ags@.headings[k - 2]);
            }
        }
        assert(view =~= group_columns(ags@));
    }
    (columns, kinds)
}

/// One row of a group's table.
fn row_cells(
    ags: &AgsGroup,
    code: &str,
    r: usize,
    kinds: &Vec<Emit>,
    id: Cell,
    parent: Cell,
) -> (out: Vec<Cell>)
    requires
        group_wf(ags@),
        r < ags@.rows.len(),
        kinds@.len() == ags@.headings.len(),
        forall|i: int| 0 <= i < kinds@.len() ==> #[trigger] kinds@[i] == kind_at(ags@, i),
    ensures
        row_view(out@) == group_row(ags@, code@, r as int, id@, parent@),
        is_uuid8(value_hash(code@, hashed_cells(ags@, r as int))),
        forall|i: int|
            0 <= i < ags@.headings.len() ==> #[trigger] written(
                ags@.rows[r as int][i],
                type_at(ags@, i),
                row_view(out@)[i + 2],
            ),
{
    let ghost g = ags@;
    let row = &ags.rows[r];
    assert(g.rows[r as int] == texts(row@));
    let mut cells: Vec<Cell> = Vec::new();
    let mut hashed: Vec<(&str, &str, &str, &str)> = Vec::new();
    cells.push(id);
    cells.push(parent);
    let mut i: usize = 0;
    while i < ags.headings.len()
        invariant
            i <= ags.headings@.len(),
            g == ags@,
            r < ags.rows@.len(),
            row == &ags.rows@[r as int],
            row@.len() == ags.headings@.len(),
            g.rows[r as int] == texts(row@),
            kinds@.len() == g.headings.len(),
            forall|j: int| 0 <= j < kinds@.len() ==> #[trigger] kinds@[j] == kind_at(g, j),
            cells@.len() == i + 2,
            hashed@.len() == i,
            cells@[0]@ == id@,
            cells@[1]@ == parent@,
            forall|j: int|
                0 <= j < i ==> (#[trigger] cells@[j + 2])@ == heading_cell(g, r as int, j),
            forall|j: int|
                0 <= j < i ==> #[trigger] cells_view(hashed@)[j] == hashed_cells(g, r as int)[j],
            forall|j: int|
                0 <= j < i ==> #[trigger] written(
                    g.rows[r as int][j],
                    type_at(g, j),
                    cells@[j + 2]@,
                ),
        decreases ags.headings@.len() - i,
    {
        let value = row[i].as_str();
        assert(value@ == g.rows[r as int][i as int]);
        cells.push(cell_for(Some(value), type_of(ags, i), kinds[i]));
        let ghost had = cells_view(hashed@);
        hashed.push(
            (ags.headings[i].as_str(), item_of(&ags.units, i), item_of(&ags.types, i), value),
        );
        proof {
            assert forall|j: int| 0 <= j < i + 1 implies #[trigger] cells_view(hashed@)[j]
                == hashed_cells(g, r as int)[j] by {
                if j < i {
                    assert(had[j] == hashed_cells(g, r as int)[j]);
                }
            }
        }
        i = i + 1;
    }
    assert(cells_view(hashed@) =~= hashed_cells(g, r as int));
    cells.push(Cell::Str(content_hash(code, &hashed)));
    proof {
        let n = g.headings.len() as int;
        let view = row_view(cells@);
        let want = group_row(g, code@, r as int, id@, parent@);
        assert forall|k: int| 0 <= k < view.len() implies #[trigger] view[k] == want[k] by {
            if 2 <= k < n + 2 {
                assert(cells@[(k - 2) + 2]@ == heading_cell(g, r as int, k - 2));
            }
        }
        assert(view =~= want);
    }
    cells
}

/// The table of a group, with the identifiers of its rows where there are any.
pub fn table_of(ags: &AgsGroup, code: &str, ids: Option<Vec<(String, Option<String>)>>) -> (r: Table)
    requires
        group_wf(ags@),
        ids is Some ==> ids->Some_0@.len() == ags@.rows.len(),
    ensures
        columns_view(r.columns@) == group_columns(ags@),
        rows_view(r.rows@) == group_rows(ags@, code@, opt_ids(ids)),
        forall|k: int|
            0 <= k < ags@.rows.len() ==> is_uuid8(#[trigger] value_hash(code@, hashed_cells(ags@, k))),
        as_written(ags@, rows_view(r.rows@)),
{
    let (columns, kinds) = plan(ags);
    let ghost want = group_rows(ags@, code@, opt_ids(ids));
    let mut rows: Vec<Vec<Cell>> = Vec::new();
    let mut r: usize = 0;
    while r < ags.rows.len()
        invariant
            r <= ags.rows@.len(),
            group_wf(ags@),
            ids is Some ==> ids->Some_0@.len() == ags@.rows.len(),
            kinds@.len() == ags@.headings.len(),
            forall|i: int| 0 <= i < kinds@.len() ==> #[trigger] kinds@[i] == kind_at(ags@, i),
            want == group_rows(ags@, code@, opt_ids(ids)),
            rows@.len() == r,
            forall|k: int| 0 <= k < r ==> row_view((#[trigger] rows@[k])@) == want[k],
            forall|k: int|
                0 <= k < r ==> is_uuid8(#[trigger] value_hash(code@, hashed_cells(ags@, k))),
            forall|k: int, i: int|
                0 <= k < r && 0 <= i < ags@.headings.len() ==> written(
                    #[trigger] ags@.rows[k][i],
                    type_at(ags@, i),
                    row_view(rows@[k]@)[i + 2],
                ),
        decreases ags.rows@.len() - r,
    {
        let (id, parent) = match &ids {
            Some(v) => (str_cell(v[r].0.as_str()), option_cell(&v[r].1)),
            None => (Cell::Null, Cell::Null),
        };
        let row = row_cells(ags, code, r, &kinds, id, parent);
        let ghost cells = row_view(row@);
        let ghost had = rows@;
        rows.push(row);
        proof {
            assert forall|k: int, i: int|
                0 <= k < r + 1 && 0 <= i < ags@.headings.len() implies written(
                #[trigger] ags@.rows[k][i],
                type_at(ags@, i),
                row_view(rows@[k]@)[i + 2],
            ) by {
                if k < r {
                    assert(rows@[k] == had[k]);
                } else {
                    assert(written(ags@.rows[r as int][i], type_at(ags@, i), cells[i + 2]));
                }
            }
        }
        r = r + 1;
    }
    assert(rows_view(rows@) =~= want);
    proof {
        let shown = rows_view(rows@);
        assert forall|k: int, i: int|
            0 <= k < ags@.rows.len() && 0 <= i < ags@.headings.len() implies written(
            #[trigger] ags@.rows[k][i],
            if i < ags@.types.len() {
                ags@.types[i]
            } else {
                "X"@
            },
            shown[k][i + 2],
        ) by {
            assert(written(ags@.rows[k][i], type_at(ags@, i), row_view(rows@[k]@)[i + 2]));
        }
    }
    Table { columns, rows }
}

/// The identifiers of the rows of a group of the standard dictionary.
pub open spec fn keyed_ids(g: GroupView, desc: DescView) -> Ids {
    Seq::new(
        g.rows.len(),
        |r: int| (own_id(desc, g.headings, g.rows[r]), parent_id(desc, g.headings, g.rows[r])),
    )
}

/// The rows of a group's table, as it is bound.
pub open spec fn bound_rows(g: GroupView, code: Seq<char>, binding: Binding) -> Seq<Seq<CellView>> {
    group_rows(
        g,
        code,
        match binding {
            Binding::Keyed => Some(keyed_ids(g, standard(code)->Some_0)),
            Binding::Unkeyed => None,
        },
    )
}

/// The table of a group, as it is bound: with the identifiers of its rows where
/// the standard dictionary has it, and with nulls in their place otherwise.
pub fn build_table(ags: &AgsGroup, group: &str, binding: &Binding) -> (r: Table)
    requires
        group_wf(ags@),
        *binding == Binding::Keyed ==> standard(group@) is Some,
    ensures
        columns_view(r.columns@) == group_columns(ags@),
        rows_view(r.rows@) == bound_rows(ags@, group@, *binding),
        identified(rows_view(r.rows@)),
        forall|k: int, i: int|
            0 <= k < ags@.rows.len() && 0 <= i < ags@.headings.len() ==> {
                let v = #[trigger] ags@.rows[k][i];
                let t = if i < ags@.types.len() {
                    ags@.types[i]
                } else {
                    "X"@
                };
                let c = rows_view(r.rows@)[k][i + 2];
                &&& trimmed(v).len() == 0 ==> c is Null
                &&& trimmed(v).len() > 0 && (category(t) is None || category(t) == Some(
                    Category::Text,
                ) || category(t) == Some(Category::Enum)) ==> c == CellView::Str(trimmed(v))
            },
{
    match binding {
        Binding::Keyed => {
            proof {
                assert forall|i: int| 0 <= i < ags.rows@.len() implies (#[trigger] ags.rows@[i])@.len()
                    == ags.headings@.len() by {
                    assert(ags@.rows[i].len() == ags@.headings.len());
                }
            }
            let ids = group_row_ids(group, &ags.headings, &ags.rows);
            proof {
                let desc = standard(group@)->Some_0;
                let want = keyed_ids(ags@, desc);
                assert forall|i: int| 0 <= i < ids@.len() implies #[trigger] ids_view(ids@)[i]
                    == want[i] by {
                    assert(ags@.rows[i] == texts(ags.rows@[i]@));
                    assert(ids@[i].0@ == own_id(desc, ags@.headings, ags@.rows[i]));
                }
                assert(ids_view(ids@) =~= want);
            }
            let ghost made = ids@;
            let table = table_of(ags, group, Some(ids));
            proof {
                let rows = rows_view(table.rows@);
                assert forall|k: int| 0 <= k < rows.len() implies row_identified(
                    #[trigger] rows[k],
                ) by {
                    assert(is_uuid8(made[k].0@));
                    assert(is_uuid8(value_hash(group@, hashed_cells(ags@, k))));
                }
            }
            table
        },
        Binding::Unkeyed => {
            let table = table_of(ags, group, None);
            proof {
                let rows = rows_view(table.rows@);
                assert forall|k: int| 0 <= k < rows.len() implies row_identified(
                    #[trigger] rows[k],
                ) by {
                    assert(is_uuid8(value_hash(group@, hashed_cells(ags@, k))));
                }
            }
            table
        },
    }
}

/// Whether `r` is the answer to how a group is bound.
pub open spec fn admitted(
    group: Seq<char>,
    in_standard: bool,
    declared: bool,
    r: Result<Binding, String>,
) -> bool {
    if in_standard {
        r == Ok::<Binding, String>(Binding::Keyed)
    } else if declared {
        r == Ok::<Binding, String>(Binding::Unkeyed)
    } else {
        r is Err && r->Err_0@ == not_declared(group)
    }
}

/// What is said of a group that neither dictionary has.
pub open spec fn not_declared(group: Seq<char>) -> Seq<char> {
    "group '"@ + group
        + "' is not in the AGS dictionary and the file's own DICT group does not declare it (Rule 18); a custom group is readable once the file declares it"@
}

/// How a group is bound: by the standard dictionary where that has it, else by the
/// file's own where that declares it. A group of neither is refused.
pub fn bind_as(group: &str, in_standard: bool, declared: bool) -> (r: Result<Binding, String>)
    ensures
        admitted(group@, in_standard, declared, r),
        in_standard ==> r == Ok::<Binding, String>(Binding::Keyed),
        !in_standard && declared ==> r == Ok::<Binding, String>(Binding::Unkeyed),
        !in_standard && !declared ==> r is Err && r->Err_0@ == "group '"@ + group@
            + "' is not in the AGS dictionary and the file's own DICT group does not declare it (Rule 18); a custom group is readable once the file declares it"@,
{
    if in_standard {
        return Ok(Binding::Keyed);
    }
    if declared {
        return Ok(Binding::Unkeyed);
    }
    let mut m = "group '".to_owned();
    m.append(group);
    m.append(
        "' is not in the AGS dictionary and the file's own DICT group does not declare it (Rule 18); a custom group is readable once the file declares it",
    );
    Err(m)
}

/// Whether a file declares anything of a group in its `DICT` group.
pub open spec fn declares(file: Seq<GroupView>, group: Seq<char>) -> bool {
    touches(file_statuses(file), file_parents(file), group)
}

/// How a group of a file is bound.
pub fn binding_for(parsed: &ParsedAgs4, group: &str) -> (r: Result<Binding, String>)
    requires
        file_wf(parsed@),
    ensures
        admitted(group@, standard(group@) is Some, declares(parsed@, group@), r),
        standard(group@) is Some ==> r == Ok::<Binding, String>(Binding::Keyed),
        standard(group@) is None && touches(file_statuses(parsed@), file_parents(parsed@), group@)
            ==> r == Ok::<Binding, String>(Binding::Unkeyed),
        standard(group@) is None && !touches(file_statuses(parsed@), file_parents(parsed@), group@)
            ==> r is Err,
{
    if registry_get(group).is_some() {
        return bind_as(group, true, false);
    }
    let dict = file_dict_of(parsed);
    bind_as(group, false, dict_touches(&dict, group))
}

/// What is said of a group that a file does not have.
pub open spec fn not_found(file: Seq<GroupView>, group: Seq<char>) -> Seq<char> {
    "group '"@ + group + "' not found (groups present: "@ + joined(codes(file), ", "@) + ")"@
}

/// A group of a file, or an error that lists what the file has.
pub fn resolve_group<'a>(parsed: &'a ParsedAgs4, group: &str) -> (r: Result<&'a AgsGroup, String>)
    ensures
        match r {
            Ok(g) => group_of(parsed@, group@) == Some(g@) && (file_wf(parsed@) ==> group_wf(g@)),
            Err(e) => group_of(parsed@, group@) is None && e@ == not_found(parsed@, group@),
        },
{
    match parsed.position(group) {
        Some(i) => {
            assert(parsed@[i as int] == parsed.groups@[i as int]@);
            Ok(&parsed.groups[i])
        },
        None => {
            let order = parsed.order();
            let mut m = "group '".to_owned();
            m.append(group);
            m.append("' not found (groups present: ");
            m.append(join(&order, ", ").as_str());
            m.append(")");
            Err(m)
        },
    }
}

/// A table's columns and rows, or the text of an error.
pub type Answer = Result<(Seq<(Seq<char>, ColType)>, Seq<Seq<CellView>>), Seq<char>>;

/// What is known of a table or an error.
pub open spec fn answer_view(r: Result<Table, String>) -> Answer {
    match r {
        Ok(t) => Ok((columns_view(t.columns@), rows_view(t.rows@))),
        Err(e) => Err(e@),
    }
}

/// The answer to a read of one group of a file: its table as it is bound, an error
/// where the file does not have it, or where no dictionary does.
pub open spec fn read_answer(file: Seq<GroupView>, group: Seq<char>) -> Answer {
    match group_of(file, group) {
        None => Err(not_found(file, group)),
        Some(g) => if standard(group) is Some {
            Ok((group_columns(g), bound_rows(g, group, Binding::Keyed)))
        } else if declares(file, group) {
            Ok((group_columns(g), bound_rows(g, group, Binding::Unkeyed)))
        } else {
            Err(not_declared(group))
        },
    }
}

/// The code that a group argument asks for: in capitals, without the whitespace
/// around it.
pub fn group_code(argument: &str) -> (r: String)
    ensures
        r@ == upper(trimmed(argument@)),
        vstd::utf8::is_ascii_chars(trimmed(argument@)) ==> r@ == crate::typing::capitals(
            trimmed(argument@),
        ),
{
    trim(argument).to_uppercase()
}

/// The table of one group of a file.
pub fn read_group(parsed: &ParsedAgs4, group: &str) -> (r: Result<Table, String>)
    requires
        file_wf(parsed@),
    ensures
        answer_view(r) == read_answer(parsed@, group@),
        r is Ok ==> identified(rows_view(r->Ok_0.rows@)),
        r is Ok ==> group_of(parsed@, group@) is Some && as_written(
            group_of(parsed@, group@)->Some_0,
            rows_view(r->Ok_0.rows@),
        ),
{
    match resolve_group(parsed, group) {
        Ok(ags) => match binding_for(parsed, group) {
            Ok(binding) => Ok(build_table(ags, group, &binding)),
            Err(e) => Err(e),
        },
        Err(e) => Err(e),
    }
}

/// The answer to a read of one group out of text, from what the codec made of it.
pub open spec fn text_answer(read: Result<Seq<GroupView>, Seq<char>>, group: Seq<char>) -> Answer {
    match read {
        Ok(file) => read_answer(file, group),
        Err(e) => Err("read_ags_text: input did not parse as AGS4 ("@ + e + ")"@),
    }
}

/// The table of one group out of what the codec made of a text.
pub fn read_parsed_text(read: Result<ParsedAgs4, String>, group: &str) -> (r: Result<Table, String>)
    requires
        read is Ok ==> file_wf(read->Ok_0@),
    ensures
        answer_view(r) == text_answer(parse_view(read), group@),
        match parse_view(read) {
            Ok(file) => {
                &&& answer_view(r) == read_answer(file, group@)
                &&& r is Ok ==> group_of(file, group@) is Some && as_written(
                    group_of(file, group@)->Some_0,
                    rows_view(r->Ok_0.rows@),
                )
            },
            Err(e) => r is Err && r->Err_0@ == "read_ags_text: input did not parse as AGS4 ("@ + e
                + ")"@,
        },
        r is Ok ==> identified(rows_view(r->Ok_0.rows@)),
{
    match read {
        Ok(parsed) => read_group(&parsed, group),
        Err(e) => {
            let mut m = "read_ags_text: input did not parse as AGS4 (".to_owned();
            m.append(e.as_str());
            m.append(")");
            Err(m)
        },
    }
}

/// `read_ags_text(content, group)`: the table of one group out of AGS4 text.
pub fn read_ags_text(content: &str, group: &str) -> (r: Result<Table, String>)
    ensures
        answer_view(r) == text_answer(
            codec(vstd::utf8::encode_utf8(content@)),
            upper(trimmed(group@)),
        ),
        match codec(vstd::utf8::encode_utf8(content@)) {
            Ok(file) => {
                let code = upper(trimmed(group@));
                &&& answer_view(r) == read_answer(file, code)
                &&& r is Ok ==> group_of(file, code) is Some && as_written(
                    group_of(file, code)->Some_0,
                    rows_view(r->Ok_0.rows@),
                )
            },
            Err(e) => r is Err && r->Err_0@ == "read_ags_text: input did not parse as AGS4 ("@ + e
                + ")"@,
        },
        r is Ok ==> identified(rows_view(r->Ok_0.rows@)),
{
    let code = group_code(group);
    read_parsed_text(read_ags4_bytes(content.as_bytes()), code.as_str())
}

/// What a reader of one group does next: read a range of the file's bytes, or the
/// whole file.
#[derive(Clone, Copy, Debug, PartialEq, Eq, Structural)]
pub enum NextRead {
    Slice(u64, u64),
    Whole,
}

/// What a reader of one group does: a certificate leads it to a range, where there
/// is one to follow and the file is read as UTF-8; else it reads the whole file.
pub fn read_plan(encoding: &str, sidecar: &Option<Sidecar>, size: u64, group: &str) -> (r: NextRead)
    requires
        sidecar is Some ==> sidecar->Some_0.wf(),
    ensures
        r == if encoding@ == "UTF-8"@ && sidecar is Some {
            match slice_of(sidecar->Some_0@.index, size, group@) {
                Some((start, end)) => NextRead::Slice(start, end),
                None => NextRead::Whole,
            }
        } else {
            NextRead::Whole
        },
{
    if !same(encoding, "UTF-8") {
        return NextRead::Whole;
    }
    match sidecar {
        Some(s) => match slice_plan(s, size, group) {
            Some((start, end)) => NextRead::Slice(start, end),
            None => NextRead::Whole,
        },
        None => NextRead::Whole,
    }
}

/// The table of the group that a certificate leads to, from the bytes that were
/// read for it. `None` sends the reader to the whole file.
pub fn sliced_table(sidecar: &Sidecar, size: u64, bytes: &[u8], group: &str) -> (r: Option<Table>)
    requires
        sidecar.wf(),
    ensures
        match sliced(sidecar@.index, size, bytes@, group@) {
            Some((g, binding)) => {
                &&& r is Some
                &&& columns_view(r->Some_0.columns@) == group_columns(g)
                &&& rows_view(r->Some_0.rows@) == bound_rows(g, group@, binding)
                &&& identified(rows_view(r->Some_0.rows@))
                &&& as_written(g, rows_view(r->Some_0.rows@))
            },
            None => r is None,
        },
{
    match sliced_group(sidecar, size, bytes, group) {
        Some((ags, binding)) => Some(build_table(&ags, group, &binding)),
        None => None,
    }
}

/// A read by certificate answers as a read of the whole file does, wherever the
/// codec finds the same group in the range as in the file, and the group is of the
/// standard dictionary, or the file declares it where the certificate says so.
pub proof fn the_fast_read_agrees(
    s: IndexView,
    size: u64,
    bytes: Seq<u8>,
    file: Seq<GroupView>,
    group: Seq<char>,
)
    requires
        sliced(s, size, bytes, group) is Some,
        group_of(file, group) == Some(sliced(s, size, bytes, group)->Some_0.0),
        standard(group) is Some || (says_declared(s, group) ==> declares(file, group)),
    ensures
        ({
            let (g, binding) = sliced(s, size, bytes, group)->Some_0;
            read_answer(file, group) == Ok::<
                (Seq<(Seq<char>, ColType)>, Seq<Seq<CellView>>),
                Seq<char>,
            >((group_columns(g), bound_rows(g, group, binding)))
        }),
{
}

/// Every row of a group's table has a cell for each column, and each cell fits its
/// column.
pub proof fn group_table_is_well_typed(g: GroupView, code: Seq<char>, binding: Binding)
    ensures
        well_typed(group_columns(g), bound_rows(g, code, binding)),
{
    let columns = group_columns(g);
    let rows = bound_rows(g, code, binding);
    let n = g.headings.len() as int;
    assert forall|r: int| 0 <= r < rows.len() implies {
        &&& (#[trigger] rows[r]).len() == columns.len()
        &&& forall|c: int| 0 <= c < columns.len() ==> fits(#[trigger] rows[r][c], columns[c].1)
    } by {
        assert forall|c: int| 0 <= c < columns.len() implies fits(
            #[trigger] rows[r][c],
            columns[c].1,
        ) by {
            if 2 <= c < n + 2 {
                assert(columns[c].1 == declared(kind_at(g, c - 2)));
                assert(rows[r][c] == heading_cell(g, r, c - 2));
            }
        }
    }
}

/// A group's table has a row for each row of the group, keyed or not; without
/// keys the identifiers are null, and the columns are the same.
pub proof fn an_unkeyed_table_keeps_its_rows(g: GroupView, code: Seq<char>, r: int)
    requires
        0 <= r < g.rows.len(),
    ensures
        bound_rows(g, code, Binding::Unkeyed).len() == g.rows.len(),
        bound_rows(g, code, Binding::Keyed).len() == g.rows.len(),
        bound_rows(g, code, Binding::Unkeyed)[r][0] is Null,
        bound_rows(g, code, Binding::Unkeyed)[r][1] is Null,
        bound_rows(g, code, Binding::Unkeyed)[r].skip(2) == bound_rows(
            g,
            code,
            Binding::Keyed,
        )[r].skip(2),
{
    assert(bound_rows(g, code, Binding::Unkeyed)[r].skip(2) =~= bound_rows(
        g,
        code,
        Binding::Keyed,
    )[r].skip(2));
}

/// Whether two rows, of groups with the given headings, agree on a key heading.
pub open spec fn agree(
    a_headings: Seq<Seq<char>>,
    a: Seq<Seq<char>>,
    b_headings: Seq<Seq<char>>,
    b: Seq<Seq<char>>,
    name: Seq<char>,
) -> bool {
    crate::registry::key_value(a_headings, a, name) == crate::registry::key_value(
        b_headings,
        b,
        name,
    )
}

proof fn lemma_same_chain(
    dict: Seq<crate::registry::HeadingView>,
    a_headings: Seq<Seq<char>>,
    a: Seq<Seq<char>>,
    b_headings: Seq<Seq<char>>,
    b: Seq<Seq<char>>,
)
    requires
        forall|k: int|
            0 <= k < dict.len() && (#[trigger] dict[k]).is_key ==> agree(
                a_headings,
                a,
                b_headings,
                b,
                dict[k].name,
            ),
    ensures
        key_chain(dict, a_headings, a) == key_chain(dict, b_headings, b),
    decreases dict.len(),
{
    if dict.len() > 0 {
        let shorter = dict.drop_last();
        assert forall|k: int| 0 <= k < shorter.len() && (#[trigger] shorter[k]).is_key implies agree(
            a_headings,
            a,
            b_headings,
            b,
            shorter[k].name,
        ) by {
            assert(dict[k].is_key);
        }
        lemma_same_chain(shorter, a_headings, a, b_headings, b);
        assert(dict[dict.len() - 1] == dict.last());
    }
}

/// A row's identifier depends on its keys alone: two rows of a group of the
/// standard dictionary that agree on its key headings have the same `_id`, from
/// one file or two, whatever else they hold.
pub proof fn same_keys_same_id(code: Seq<char>, g: GroupView, r: int, h: GroupView, s: int)
    requires
        standard(code) is Some,
        0 <= r < g.rows.len(),
        0 <= s < h.rows.len(),
        ({
            let dict = standard(code)->Some_0.headings;
            forall|k: int|
                0 <= k < dict.len() && (#[trigger] dict[k]).is_key ==> agree(
                    g.headings,
                    g.rows[r],
                    h.headings,
                    h.rows[s],
                    dict[k].name,
                )
        }),
    ensures
        bound_rows(g, code, Binding::Keyed)[r][0] == bound_rows(h, code, Binding::Keyed)[s][0],
{
    lemma_same_chain(
        standard(code)->Some_0.headings,
        g.headings,
        g.rows[r],
        h.headings,
        h.rows[s],
    );
}

/// The join holds by construction: where a row repeats the keys of its parent's
/// row, its `_parent_id` is that row's `_id`, from one file or two and in one read
/// or two.
pub proof fn child_meets_its_parent(
    code: Seq<char>,
    child: GroupView,
    r: int,
    parent_code: Seq<char>,
    parent: GroupView,
    s: int,
)
    requires
        standard(code) is Some,
        standard(code)->Some_0.parent == Some(parent_code),
        standard(parent_code) is Some,
        standard(parent_code)->Some_0.code == parent_code,
        0 <= r < child.rows.len(),
        0 <= s < parent.rows.len(),
        ({
            let dict = standard(parent_code)->Some_0.headings;
            forall|k: int|
                0 <= k < dict.len() && (#[trigger] dict[k]).is_key ==> agree(
                    child.headings,
                    child.rows[r],
                    parent.headings,
                    parent.rows[s],
                    dict[k].name,
                )
        }),
    ensures
        bound_rows(child, code, Binding::Keyed)[r][1] == bound_rows(
            parent,
            parent_code,
            Binding::Keyed,
        )[s][0],
{
    lemma_same_chain(
        standard(parent_code)->Some_0.headings,
        child.headings,
        child.rows[r],
        parent.headings,
        parent.rows[s],
    );
}

/// A cell of a group's table is that of the row's own value under its heading, by the
/// type code of the heading alone, `X` where the group gives none: the typed value
/// itself, in the kind of the code's category.
pub proof fn a_cell_is_of_its_own_value(
    g: GroupView,
    code: Seq<char>,
    binding: Binding,
    r: int,
    i: int,
)
    requires
        0 <= r < g.rows.len(),
        0 <= i < g.headings.len(),
    ensures
        bound_rows(g, code, binding).len() == g.rows.len(),
        bound_rows(g, code, binding)[r].len() == g.headings.len() + 3,
        ({
            let t = if i < g.types.len() {
                g.types[i]
            } else {
                "X"@
            };
            let cell = bound_rows(g, code, binding)[r][i + 2];
            match (category(t), typed(Some(g.rows[r][i]), t)) {
                (_, TypedView::Null) => cell is Null,
                (Some(Category::Decimal), TypedView::Number(_, Some(d))) => cell
                    == CellView::Double(d),
                (Some(Category::Integer), TypedView::Number(Some(n), _)) => cell == CellView::Int(n),
                (Some(Category::Bool), TypedView::Bool(b)) => cell == CellView::Bool(b),
                (Some(Category::Decimal), _) => cell is Null,
                (Some(Category::Integer), _) => cell is Null,
                (Some(Category::Bool), _) => cell is Null,
                (_, TypedView::Text(s)) => cell == CellView::Str(s),
                _ => cell is Null,
            }
        }),
{
    let t = type_at(g, i);
    a_cell_shows_its_value(typed(Some(g.rows[r][i]), t), category(t));
}

/// The same value under the same type code gives the same cell, in one table or two,
/// wherever it stands and whatever stands around it.
pub proof fn same_value_same_cell(
    g: GroupView,
    a: Seq<char>,
    bound: Binding,
    r: int,
    i: int,
    h: GroupView,
    b: Seq<char>,
    other: Binding,
    s: int,
    j: int,
)
    requires
        0 <= r < g.rows.len(),
        0 <= i < g.headings.len(),
        i < g.types.len(),
        0 <= s < h.rows.len(),
        0 <= j < h.headings.len(),
        j < h.types.len(),
        g.rows[r][i] == h.rows[s][j],
        g.types[i] == h.types[j],
    ensures
        bound_rows(g, a, bound)[r][i + 2] == bound_rows(h, b, other)[s][j + 2],
{
}

/// The fingerprint of a row is that of the row's own values, each with its heading, the
/// heading's unit and its type, empty where the group gives none.
pub proof fn a_fingerprint_is_of_its_own_row(
    g: GroupView,
    code: Seq<char>,
    binding: Binding,
    r: int,
    cells: Seq<(Seq<char>, Seq<char>, Seq<char>, Seq<char>)>,
)
    requires
        0 <= r < g.rows.len(),
        cells.len() == g.headings.len(),
        forall|i: int|
            0 <= i < cells.len() ==> {
                &&& (#[trigger] cells[i]).0 == g.headings[i]
                &&& cells[i].1 == if i < g.units.len() {
                    g.units[i]
                } else {
                    Seq::<char>::empty()
                }
                &&& cells[i].2 == if i < g.types.len() {
                    g.types[i]
                } else {
                    Seq::<char>::empty()
                }
                &&& cells[i].3 == g.rows[r][i]
            },
    ensures
        bound_rows(g, code, binding)[r].last() == CellView::Str(value_hash(code, cells)),
{
    assert(hashed_cells(g, r) =~= cells);
}

/// Two rows of the same headings, units, types and values have the same fingerprint, of
/// one file or two, whatever other rows their groups hold and however they are keyed.
pub proof fn same_values_same_fingerprint(
    code: Seq<char>,
    g: GroupView,
    bound: Binding,
    r: int,
    h: GroupView,
    other: Binding,
    s: int,
)
    requires
        0 <= r < g.rows.len(),
        0 <= s < h.rows.len(),
        g.headings == h.headings,
        g.units == h.units,
        g.types == h.types,
        g.rows[r] == h.rows[s],
    ensures
        bound_rows(g, code, bound)[r].last() == bound_rows(h, code, other)[s].last(),
{
    assert(hashed_cells(g, r) =~= hashed_cells(h, s));
}

/// The columns of a group's table: the two identifiers, then the headings in their
/// order under their own names, each typed by the category of its code, and the
/// fingerprint last.
pub proof fn columns_follow_the_headings(g: GroupView, i: int)
    requires
        0 <= i < g.headings.len(),
    ensures
        group_columns(g).len() == g.headings.len() + 3,
        group_columns(g)[0] == ("_id"@, ColType::Varchar),
        group_columns(g)[1] == ("_parent_id"@, ColType::Varchar),
        group_columns(g).last() == ("_content_hash"@, ColType::Varchar),
        group_columns(g)[i + 2].0 == g.headings[i],
        group_columns(g)[i + 2].1 == match category(
            if i < g.types.len() {
                g.types[i]
            } else {
                "X"@
            },
        ) {
            Some(Category::Decimal) => ColType::Double,
            Some(Category::Integer) => ColType::BigInt,
            Some(Category::Bool) => ColType::Boolean,
            _ => ColType::Varchar,
        },
{
    a_column_is_typed_by_its_category(category(type_at(g, i)));
}

/// The identifiers of a row of a group of the standard dictionary are those of its own
/// keys, and of its parent's keys as the row itself repeats them; there is no parent's
/// where the dictionary has no parent. A group that the dictionary lacks has none.
pub proof fn a_row_is_identified_by_its_own_keys(g: GroupView, code: Seq<char>, r: int)
    requires
        standard(code) is Some,
        0 <= r < g.rows.len(),
    ensures
        ({
            let desc = standard(code)->Some_0;
            let row = bound_rows(g, code, Binding::Keyed)[r];
            &&& row[0] == CellView::Str(
                content_id(desc.code, key_chain(desc.headings, g.headings, g.rows[r])),
            )
            &&& row[1] == match desc.parent {
                Some(p) => match standard(p) {
                    Some(d) => CellView::Str(
                        content_id(p, key_chain(d.headings, g.headings, g.rows[r])),
                    ),
                    None => CellView::Null,
                },
                None => CellView::Null,
            }
        }),
        bound_rows(g, code, Binding::Unkeyed)[r][0] is Null,
        bound_rows(g, code, Binding::Unkeyed)[r][1] is Null,
{
}

/// A read of a group of a file gives that group's own table: keyed where the standard
/// dictionary has the group, unkeyed where only the file declares it; and an error that
/// says so where neither does. A code that the file does not have is an error that lists
/// those that it has.
pub proof fn a_read_gives_the_group_that_was_asked_for(
    file: Seq<GroupView>,
    i: int,
    missing: Seq<char>,
)
    requires
        file_wf(file),
        0 <= i < file.len(),
        forall|j: int| 0 <= j < file.len() ==> (#[trigger] file[j]).code != missing,
    ensures
        ({
            let g = file[i];
            let answer = read_answer(file, g.code);
            if standard(g.code) is Some {
                answer == Ok::<(Seq<(Seq<char>, ColType)>, Seq<Seq<CellView>>), Seq<char>>(
                    (group_columns(g), bound_rows(g, g.code, Binding::Keyed)),
                )
            } else if touches(file_statuses(file), file_parents(file), g.code) {
                answer == Ok::<(Seq<(Seq<char>, ColType)>, Seq<Seq<CellView>>), Seq<char>>(
                    (group_columns(g), bound_rows(g, g.code, Binding::Unkeyed)),
                )
            } else {
                answer == Err::<(Seq<(Seq<char>, ColType)>, Seq<Seq<CellView>>), Seq<char>>(
                    "group '"@ + g.code
                        + "' is not in the AGS dictionary and the file's own DICT group does not declare it (Rule 18); a custom group is readable once the file declares it"@,
                )
            }
        }),
        read_answer(file, missing) == Err::<
            (Seq<(Seq<char>, ColType)>, Seq<Seq<CellView>>),
            Seq<char>,
        >(
            "group '"@ + missing + "' not found (groups present: "@ + joined(
                Seq::new(file.len(), |k: int| file[k].code),
                ", "@,
            ) + ")"@,
        ),
{
    every_code_names_its_group(file, i);
    assert(codes(file)[i] == file[i].code);
    a_code_finds_its_first_group(file, missing);
    assert(codes(file) =~= Seq::new(file.len(), |k: int| file[k].code));
}

} // verus!
