use laterite_ags4::ags::ParsedAgs4;
use laterite_ags4::load::{children_of, load_ags, number, write_script};
use laterite_ags4::source::parse_source;
use laterite_ags4::table::{Cell, Table};
use laterite_ags4::to_duckdb::to_duckdb;

const FILE: &str = "\"GROUP\",\"PROJ\"\r\n\"HEADING\",\"PROJ_ID\"\r\n\"DATA\",\"P\"\r\n\
    \"GROUP\",\"LOCA\"\r\n\"HEADING\",\"LOCA_ID\"\r\n\"DATA\",\"A\"\r\n";

fn parsed() -> ParsedAgs4 {
    parse_source("t", FILE.as_bytes(), "UTF-8").unwrap()
}

fn statements(t: &Table) -> Vec<String> {
    t.rows
        .iter()
        .enumerate()
        .map(|(i, r)| {
            assert_eq!(r[0], Cell::Int(i as i64));
            match &r[1] {
                Cell::Str(text) => text.clone(),
                other => panic!("{other:?}"),
            }
        })
        .collect()
}

#[test]
fn a_file_is_loaded_group_by_group() {
    let t = load_ags("o'site.ags", &parsed());
    assert_eq!(
        statements(&t),
        vec![
            "CREATE TABLE ags_proj AS SELECT * FROM read_ags('o''site.ags', 'PROJ');",
            "CREATE INDEX ags_proj_id_idx ON ags_proj(_id);",
            "CREATE TABLE ags_loca AS SELECT * FROM read_ags('o''site.ags', 'LOCA');",
            "CREATE INDEX ags_loca_id_idx ON ags_loca(_id);",
            "CREATE INDEX ags_loca_parent_idx ON ags_loca(_parent_id);",
        ]
    );
    assert_eq!(t.columns[0].name, "seq");
    assert_eq!(t.columns[1].name, "stmt");
}

#[test]
fn a_file_is_exported_into_an_attached_database() {
    let t = to_duckdb("s.ags", "o'ut.db", &parsed());
    assert_eq!(
        statements(&t),
        vec![
            "ATTACH 'o''ut.db' AS _lat_out;",
            "CREATE TABLE _lat_out.ags_proj AS SELECT * FROM read_ags('s.ags', 'PROJ');",
            "CREATE INDEX ags_proj_id_idx ON _lat_out.ags_proj(_id);",
            "CREATE TABLE _lat_out.ags_loca AS SELECT * FROM read_ags('s.ags', 'LOCA');",
            "CREATE INDEX ags_loca_id_idx ON _lat_out.ags_loca(_id);",
            "CREATE INDEX ags_loca_parent_idx ON _lat_out.ags_loca(_parent_id);",
            "DETACH _lat_out;",
        ]
    );
}

#[test]
fn an_empty_file_has_an_empty_script() {
    let none = ParsedAgs4 { groups: Vec::new() };
    assert_eq!(load_ags("x", &none).rows.len(), 0);
    assert_eq!(to_duckdb("x", "y", &none).rows.len(), 2);
}

#[test]
fn children_are_indexed_by_their_parents() {
    let codes = vec!["PROJ".to_string(), "SAMP".to_string(), "ZZZZ".to_string()];
    assert_eq!(children_of(&codes), vec![false, true, false]);
    let script = write_script("", "p", &codes, &vec![true, false, false]);
    assert_eq!(script.len(), 3 + 2 + 2);
    assert_eq!(script[2], "CREATE INDEX ags_proj_parent_idx ON ags_proj(_parent_id);");
    assert_eq!(number(script).rows.len(), 7);
}
