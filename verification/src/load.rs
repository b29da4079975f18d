//! Scripts that put a file into tables of its own: one table for each group, with
//! indexes on its identifiers.

use vstd::prelude::*;
use vstd::string::*;

use crate::ags::{codes, GroupView, ParsedAgs4};
use crate::registry::{registry_get, standard};
use crate::table::{
    column, columns_view, row_view, rows_view, well_typed, Cell, CellView, ColType, Column,
    Table,
};
use crate::text::{lower, quote, quoted, quoted_text_stays_in_its_literal, read_literal, texts};

verus! {

/// Whether the standard dictionary gives a group a parent.
pub open spec fn is_child(code: Seq<char>) -> bool {
    standard(code) is Some && standard(code)->Some_0.parent is Some
}

/// The statement up to the literal of the source path.
pub open spec fn create_head(table: Seq<char>) -> Seq<char> {
    "CREATE TABLE "@ + table + " AS SELECT * FROM read_ags('"@
}

/// The statement that creates a group's table out of a read of the group.
pub open spec fn create_stmt(table: Seq<char>, path: Seq<char>, code: Seq<char>) -> Seq<char> {
    create_head(table) + quoted(path) + "', '"@ + code + "');"@
}

/// The statement that indexes a table by a column.
pub open spec fn index_stmt(name: Seq<char>, table: Seq<char>, column: Seq<char>) -> Seq<char> {
    "CREATE INDEX "@ + name + " ON "@ + table + "("@ + column + ");"@
}

/// The statements for one group: its table, the index on `_id`, and, where the
/// group has a parent, the index on `_parent_id`. The table stands in `schema`.
pub open spec fn group_stmts(
    schema: Seq<char>,
    path: Seq<char>,
    code: Seq<char>,
    child: bool,
) -> Seq<Seq<char>> {
    let name = "ags_"@ + lower(code);
    let table = schema + name;
    let both = seq![
        create_stmt(table, path, code),
        index_stmt(name + "_id_idx"@, table, "_id"@),
    ];
    if child {
        both.push(index_stmt(name + "_parent_idx"@, table, "_parent_id"@))
    } else {
        both
    }
}

/// The statements for the first `n` of the groups, group by group.
pub open spec fn script(
    schema: Seq<char>,
    path: Seq<char>,
    codes: Seq<Seq<char>>,
    children: Seq<bool>,
    n: int,
) -> Seq<Seq<char>>
    decreases n,
{
    if n <= 0 {
        Seq::empty()
    } else {
        script(schema, path, codes, children, n - 1) + group_stmts(
            schema,
            path,
            codes[n - 1],
            children[n - 1],
        )
    }
}

fn index_text(name: &str, suffix: &str, table: &str, column: &str) -> (r: String)
    ensures
        r@ == index_stmt(name@ + suffix@, table@, column@),
{
    let mut index = name.to_owned();
    index.append(suffix);
    let mut s = "CREATE INDEX ".to_owned();
    s.append(index.as_str());
    s.append(" ON ");
    s.append(table);
    s.append("(");
    s.append(column);
    s.append(");");
    s
}

fn push_group(out: &mut Vec<String>, schema: &str, path: &str, lit: &str, code: &str, child: bool)
    requires
        lit@ == quoted(path@),
    ensures
        texts(final(out)@) == texts(old(out)@) + group_stmts(schema@, path@, code@, child),
{
    let ghost had = texts(out@);
    let low = code.to_lowercase();
    let mut name = "ags_".to_owned();
    name.append(low.as_str());
    let mut table = schema.to_owned();
    table.append(name.as_str());
    let mut create = "CREATE TABLE ".to_owned();
    create.append(table.as_str());
    create.append(" AS SELECT * FROM read_ags('");
    create.append(lit);
    create.append("', '");
    create.append(code);
    create.append("');");
    out.push(create);
    out.push(index_text(name.as_str(), "_id_idx", table.as_str(), "_id"));
    if child {
        out.push(index_text(name.as_str(), "_parent_idx", table.as_str(), "_parent_id"));
    }
    assert(texts(out@) =~= had + group_stmts(schema@, path@, code@, child));
}

/// The statements for the groups of the given codes, of which `children` says
/// which have a parent, into tables of `schema`.
pub fn write_script(schema: &str, path: &str, codes: &Vec<String>, children: &Vec<bool>) -> (r: Vec<
    String,
>)
    requires
        codes@.len() == children@.len(),
    ensures
        texts(r@) == script(schema@, path@, texts(codes@), children@, codes@.len() as int),
{
    let lit = quote(path);
    let mut out: Vec<String> = Vec::new();
    let mut n: usize = 0;
    assert(texts(out@) =~= Seq::empty());
    while n < codes.len()
        invariant
            n <= codes@.len(),
            codes@.len() == children@.len(),
            lit@ == quoted(path@),
            texts(out@) == script(schema@, path@, texts(codes@), children@, n as int),
        decreases codes@.len() - n,
    {
        push_group(&mut out, schema, path, lit.as_str(), codes[n].as_str(), children[n]);
        n = n + 1;
    }
    out
}

/// The columns of a script.
pub open spec fn script_columns() -> Seq<(Seq<char>, ColType)> {
    seq![("seq"@, ColType::BigInt), ("stmt"@, ColType::Varchar)]
}

/// The rows of a script: the statements, numbered from 0 in the order in which
/// they are to run.
pub open spec fn numbered(stmts: Seq<Seq<char>>) -> Seq<Seq<CellView>> {
    Seq::new(stmts.len(), |i: int| seq![CellView::Int(i as i64), CellView::Str(stmts[i])])
}

/// The statements as a table, numbered from 0 in their order.
pub fn number(stmts: Vec<String>) -> (r: Table)
    ensures
        columns_view(r.columns@) == script_columns(),
        rows_view(r.rows@) == numbered(texts(stmts@)),
{
    let mut columns: Vec<Column> = Vec::new();
    columns.push(column("seq", ColType::BigInt));
    columns.push(column("stmt", ColType::Varchar));
    assert(columns_view(columns@) =~= script_columns());
    let ghost want = numbered(texts(stmts@));
    let mut rows: Vec<Vec<Cell>> = Vec::new();
    let mut i: usize = 0;
    while i < stmts.len()
        invariant
            i <= stmts@.len(),
            want == numbered(texts(stmts@)),
            rows@.len() == i,
            forall|k: int| 0 <= k < i ==> row_view((#[trigger] rows@[k])@) == want[k],
        decreases stmts@.len() - i,
    {
        let mut row: Vec<Cell> = Vec::new();
        row.push(
            Cell::Int(
                #[verifier::truncate]
                (i as i64),
            ),
        );
        row.push(Cell::Str(stmts[i].clone()));
        assert(row_view(row@) =~= want[i as int]);
        rows.push(row);
        i = i + 1;
    }
    assert(rows_view(rows@) =~= want);
    Table { columns, rows }
}

/// Which of the groups have a parent in the standard dictionary.
pub open spec fn child_flags(codes: Seq<Seq<char>>) -> Seq<bool> {
    Seq::new(codes.len(), |i: int| is_child(codes[i]))
}

/// Which of the groups of the given codes have a parent in the standard
/// dictionary.
pub fn children_of(codes: &Vec<String>) -> (r: Vec<bool>)
    ensures
        r@ == child_flags(texts(codes@)),
{
    let mut out: Vec<bool> = Vec::new();
    let mut i: usize = 0;
    while i < codes.len()
        invariant
            i <= codes@.len(),
            out@.len() == i,
            forall|k: int| 0 <= k < i ==> #[trigger] out@[k] == is_child(codes@[k]@),
        decreases codes@.len() - i,
    {
        let child = match registry_get(codes[i].as_str()) {
            Some(d) => d.parent.is_some(),
            None => false,
        };
        out.push(child);
        i = i + 1;
    }
    assert(out@ =~= child_flags(texts(codes@)));
    out
}

/// The script of a file, into tables of `schema`.
pub open spec fn file_script(schema: Seq<char>, path: Seq<char>, file: Seq<GroupView>) -> Seq<
    Seq<char>,
> {
    script(schema, path, codes(file), child_flags(codes(file)), file.len() as int)
}

/// `load_ags(path)`: the script that puts a file into tables of the current
/// database.
pub fn load_ags(path: &str, parsed: &ParsedAgs4) -> (r: Table)
    ensures
        columns_view(r.columns@) == script_columns(),
        rows_view(r.rows@) == numbered(file_script(Seq::empty(), path@, parsed@)),
{
    proof {
        reveal_strlit("");
        assert(""@ =~= Seq::<char>::empty());
    }
    let order = parsed.order();
    let children = children_of(&order);
    assert(order@.len() == texts(order@).len());
    assert(order@.len() == parsed@.len());
    number(write_script("", path, &order, &children))
}

/// Every row of a script has a number and a statement.
pub proof fn a_script_is_well_typed(stmts: Seq<Seq<char>>)
    ensures
        well_typed(script_columns(), numbered(stmts)),
{
}

/// The statements of a script are numbered 0, 1, 2 and so on, in the order in
/// which they come.
pub proof fn a_script_is_numbered_in_order(stmts: Seq<Seq<char>>, i: int)
    requires
        0 <= i < stmts.len(),
        stmts.len() <= i64::MAX,
    ensures
        numbered(stmts)[i][0] == CellView::Int(i as i64),
        i as i64 == i,
        numbered(stmts)[i][1] == CellView::Str(stmts[i]),
{
}

/// Each group of a file has its statements in the script, behind those of the
/// groups before it: its table first, then its indexes.
pub proof fn every_group_is_in_the_script(
    schema: Seq<char>,
    path: Seq<char>,
    codes: Seq<Seq<char>>,
    children: Seq<bool>,
    n: int,
    i: int,
)
    requires
        0 <= i < n <= codes.len(),
        codes.len() == children.len(),
    ensures
        ({
            let from = script(schema, path, codes, children, i).len() as int;
            let own = group_stmts(schema, path, codes[i], children[i]);
            let all = script(schema, path, codes, children, n);
            &&& from + own.len() <= all.len()
            &&& all.subrange(from, from + own.len()) == own
            &&& own[0] == create_stmt(schema + ("ags_"@ + lower(codes[i])), path, codes[i])
            &&& own.len() == if children[i] { 3nat } else { 2 }
        }),
    decreases n,
{
    let from = script(schema, path, codes, children, i).len() as int;
    let own = group_stmts(schema, path, codes[i], children[i]);
    let all = script(schema, path, codes, children, n);
    if n == i + 1 {
        assert(all.subrange(from, from + own.len()) =~= own);
    } else {
        every_group_is_in_the_script(schema, path, codes, children, n - 1, i);
        let before = script(schema, path, codes, children, n - 1);
        assert(all.subrange(from, from + own.len()) =~= before.subrange(from, from + own.len()));
    }
}

/// The source path stays in its literal, whatever quotes it holds: read as SQL, the
/// statement that creates a table reads the group from just that path.
pub proof fn the_path_stays_in_its_literal(table: Seq<char>, path: Seq<char>, code: Seq<char>)
    ensures
        ({
            let s = create_stmt(table, path, code);
            let head = create_head(table);
            &&& s.len() >= head.len()
            &&& read_literal(s.skip(head.len() as int)) == Some((path, ", '"@ + code + "');"@))
        }),
{
    let s = create_stmt(table, path, code);
    let head = create_head(table);
    let rest = ", '"@ + code + "');"@;
    reveal_strlit("', '");
    reveal_strlit(", '");
    assert("', '"@ =~= seq!['\''] + ", '"@);
    assert(s.skip(head.len() as int) =~= quoted(path) + seq!['\''] + rest);
    quoted_text_stays_in_its_literal(path, rest);
}

/// The statements for each group of a file, where they stand in its script: the table is
/// created under the group's code in small letters, out of a read of just that group
/// from just that path; it is indexed by `_id`; and, where the standard dictionary gives
/// the group a parent, by `_parent_id` too.
pub proof fn a_group_is_stored_and_indexed(
    schema: Seq<char>,
    path: Seq<char>,
    file: Seq<GroupView>,
    i: int,
)
    requires
        0 <= i < file.len(),
    ensures
        ({
            let code = file[i].code;
            let name = "ags_"@ + lower(code);
            let all = file_script(schema, path, file);
            let at = script(schema, path, codes(file), child_flags(codes(file)), i).len() as int;
            let next = script(schema, path, codes(file), child_flags(codes(file)), i + 1).len();
            let child = standard(code) is Some && standard(code)->Some_0.parent is Some;
            &&& at + 1 < all.len()
            &&& all[at] == "CREATE TABLE "@ + (schema + name) + " AS SELECT * FROM read_ags('"@
                + quoted(path) + "', '"@ + code + "');"@
            &&& all[at + 1] == "CREATE INDEX "@ + (name + "_id_idx"@) + " ON "@ + (schema + name)
                + "("@ + "_id"@ + ");"@
            &&& child ==> at + 2 < all.len() && all[at + 2] == "CREATE INDEX "@ + (name
                + "_parent_idx"@) + " ON "@ + (schema + name) + "("@ + "_parent_id"@ + ");"@
            &&& next == at + if child {
                3int
            } else {
                2
            }
        }),
        script(schema, path, codes(file), child_flags(codes(file)), 0).len() == 0,
{
    let flags = child_flags(codes(file));
    let own = group_stmts(schema, path, codes(file)[i], flags[i]);
    let at = script(schema, path, codes(file), flags, i).len() as int;
    let all = file_script(schema, path, file);
    every_group_is_in_the_script(schema, path, codes(file), flags, file.len() as int, i);
    let part = all.subrange(at, at + own.len());
    assert(part[0] == own[0]);
    assert(part[1] == own[1]);
    if flags[i] {
        assert(part[2] == own[2]);
    }
}

/// The columns of a script by name, in their order.
pub proof fn script_columns_by_name()
    ensures
        script_columns().map_values(|c: (Seq<char>, ColType)| c.0) == seq!["seq"@, "stmt"@],
{
}

/// A script has a row for each of its statements, and nothing else in it.
pub proof fn a_script_shows_every_statement(stmts: Seq<Seq<char>>, i: int)
    requires
        0 <= i < stmts.len(),
    ensures
        numbered(stmts).len() == stmts.len(),
        numbered(stmts)[i] == seq![CellView::Int(i as i64), CellView::Str(stmts[i])],
{
}

} // verus!
