//! The script that puts a file into a database of its own.

use vstd::prelude::*;
use vstd::string::*;

use crate::ags::{GroupView, ParsedAgs4};
use crate::load::{children_of, file_script, number, numbered, script_columns, write_script};
use crate::table::{columns_view, rows_view, Table};
use crate::text::{quote, quoted, quoted_text_stays_in_its_literal, read_literal, texts};

verus! {

/// The statement that opens the destination.
pub open spec fn attach_stmt(out: Seq<char>) -> Seq<char> {
    "ATTACH '"@ + quoted(out) + "' AS _lat_out;"@
}

/// The script of a file into a database of its own: the destination is opened
/// first, every table is created in it, and it is closed last.
pub open spec fn export_script(path: Seq<char>, out: Seq<char>, file: Seq<GroupView>) -> Seq<
    Seq<char>,
> {
    seq![attach_stmt(out)] + file_script("_lat_out."@, path, file) + seq!["DETACH _lat_out;"@]
}

/// `to_duckdb(ags_path, out_path)`: the script that puts a file into the database
/// at `out`.
pub fn to_duckdb(path: &str, out: &str, parsed: &ParsedAgs4) -> (r: Table)
    ensures
        columns_view(r.columns@) == script_columns(),
        rows_view(r.rows@) == numbered(export_script(path@, out@, parsed@)),
{
    let lit = quote(out);
    let mut attach = "ATTACH '".to_owned();
    attach.append(lit.as_str());
    attach.append("' AS _lat_out;");
    let order = parsed.order();
    let children = children_of(&order);
    assert(order@.len() == texts(order@).len());
    assert(order@.len() == parsed@.len());
    let mut tables = write_script("_lat_out.", path, &order, &children);
    let mut stmts: Vec<String> = Vec::new();
    stmts.push(attach);
    stmts.append(&mut tables);
    stmts.push("DETACH _lat_out;".to_owned());
    assert(texts(stmts@) =~= export_script(path@, out@, parsed@));
    number(stmts)
}

/// The destination stays in its literal, whatever quotes its path holds.
pub proof fn the_destination_stays_in_its_literal(out: Seq<char>)
    ensures
        read_literal(attach_stmt(out).skip("ATTACH '"@.len() as int)) == Some(
            (out, " AS _lat_out;"@),
        ),
{
    let rest = " AS _lat_out;"@;
    reveal_strlit("' AS _lat_out;");
    reveal_strlit(" AS _lat_out;");
    assert("' AS _lat_out;"@ =~= seq!['\''] + rest);
    assert(attach_stmt(out).skip("ATTACH '"@.len() as int) =~= quoted(out) + seq!['\''] + rest);
    quoted_text_stays_in_its_literal(out, rest);
}

/// The destination is open while the tables are created: the first statement opens
/// it, the last closes it, and all between are the file's own.
pub proof fn the_destination_is_open_throughout(path: Seq<char>, out: Seq<char>, file: Seq<GroupView>)
    ensures
        ({
            let all = export_script(path, out, file);
            &&& all.len() >= 2
            &&& all[0] == attach_stmt(out)
            &&& all.last() == "DETACH _lat_out;"@
            &&& all.subrange(1, all.len() - 1) == file_script("_lat_out."@, path, file)
        }),
{
    let all = export_script(path, out, file);
    assert(all.subrange(1, all.len() - 1) =~= file_script("_lat_out."@, path, file));
}

/// The script into a database of its own opens the file at the given path under a name of
/// its own, and every table goes there: between the first statement and the last it is
/// the script of the file into that name.
pub proof fn the_tables_go_to_the_destination(path: Seq<char>, out: Seq<char>, file: Seq<GroupView>)
    ensures
        ({
            let all = export_script(path, out, file);
            &&& all.len() == file_script("_lat_out."@, path, file).len() + 2
            &&& all[0] == "ATTACH '"@ + quoted(out) + "' AS _lat_out;"@
            &&& all.last() == "DETACH _lat_out;"@
            &&& forall|k: int|
                0 <= k < all.len() - 2 ==> #[trigger] all[k + 1] == file_script(
                    "_lat_out."@,
                    path,
                    file,
                )[k]
        }),
{
}

} // verus!
