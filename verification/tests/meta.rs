use laterite_ags4::ags::{AgsGroup, ParsedAgs4};
use laterite_ags4::file_dict::{file_dict_of, file_parent};
use laterite_ags4::meta::{ags_groups, ags_headings, describe, status_of, summarize};
use laterite_ags4::registry::{GroupDesc, HeadingDesc};
use laterite_ags4::source::parse_source;
use laterite_ags4::table::{Cell, Table};

const FILE: &str = "\"GROUP\",\"PROJ\"\r\n\
    \"HEADING\",\"PROJ_ID\"\r\n\"UNIT\",\"\"\r\n\"TYPE\",\"ID\"\r\n\
    \"DATA\",\"P1\"\r\n\r\n\
    \"GROUP\",\"LOCA\"\r\n\
    \"HEADING\",\"LOCA_ID\",\"LOCA_GL\",\"LOCA_OWN\"\r\n\
    \"UNIT\",\"\",\"m\",\"\"\r\n\"TYPE\",\"ID\",\"2DP\",\"YN\"\r\n\
    \"DATA\",\"BH01\",\"1.00\",\"\"\r\n\"DATA\",\"BH02\",\"2.00\",\"\"\r\n\r\n\
    \"GROUP\",\"DICT\"\r\n\
    \"HEADING\",\"DICT_TYPE\",\"DICT_GRP\",\"DICT_HDNG\",\"DICT_STAT\",\"DICT_PGRP\"\r\n\
    \"UNIT\",\"\",\"\",\"\",\"\",\"\"\r\n\"TYPE\",\"X\",\"X\",\"X\",\"X\",\"X\"\r\n\
    \"DATA\",\"GROUP\",\"XXXX\",\"\",\"\",\"LOCA\"\r\n\
    \"DATA\",\"GROUP\",\"XXXX\",\"\",\"\",\"SAMP\"\r\n\
    \"DATA\",\"GROUP\",\"WWWW\",\"\",\"\",\"-\"\r\n\
    \"DATA\",\"HEADING\",\"XXXX\",\"XXXX_DPTH\",\"key+required\",\"\"\r\n\
    \"DATA\",\"HEADING\",\"XXXX\",\"XXXX_DPTH\",\"OTHER\",\"\"\r\n\
    \"DATA\",\"HEADING\",\"LOCA\",\"LOCA_ID\",\"OTHER\",\"\"\r\n\r\n\
    \"GROUP\",\"XXXX\"\r\n\"HEADING\",\"XXXX_DPTH\",\"XXXX_NOTE\"\r\n\"DATA\",\"1\",\"n\"\r\n\r\n\
    \"GROUP\",\"WWWW\"\r\n\"HEADING\",\"WWWW_A\"\r\n";

fn parsed() -> ParsedAgs4 {
    parse_source("t", FILE.as_bytes(), "UTF-8").unwrap()
}

fn s(text: &str) -> Cell {
    Cell::Str(text.to_string())
}

fn names(t: &Table) -> Vec<&str> {
    t.columns.iter().map(|c| c.name.as_str()).collect()
}

#[test]
fn groups_are_listed_with_their_parents() {
    let t = ags_groups(&parsed());
    assert_eq!(names(&t), vec!["group", "n_rows", "n_headings", "parent"]);
    assert_eq!(
        t.rows,
        vec![
            vec![s("PROJ"), Cell::Int(1), Cell::Int(1), Cell::Null],
            vec![s("LOCA"), Cell::Int(2), Cell::Int(3), s("PROJ")],
            vec![s("DICT"), Cell::Int(6), Cell::Int(5), t.rows[2][3].clone()],
            vec![s("XXXX"), Cell::Int(1), Cell::Int(2), s("LOCA")],
            vec![s("WWWW"), Cell::Int(0), Cell::Int(1), Cell::Null],
        ]
    );
}

#[test]
fn a_small_file_has_its_three_groups() {
    let text = "\"GROUP\",\"PROJ\"\r\n\"HEADING\",\"PROJ_ID\"\r\n\"DATA\",\"P\"\r\n\
        \"GROUP\",\"LOCA\"\r\n\"HEADING\",\"LOCA_ID\"\r\n\"DATA\",\"A\"\r\n\"DATA\",\"B\"\r\n\
        \"GROUP\",\"SAMP\"\r\n\"HEADING\",\"LOCA_ID\"\r\n\"DATA\",\"A\"\r\n";
    let t = ags_groups(&parse_source("t", text.as_bytes(), "UTF-8").unwrap());
    assert_eq!(t.rows.len(), 3);
    assert_eq!(t.rows[1][1], Cell::Int(2));
    assert_eq!(t.rows[1][3], s("PROJ"));
    assert_eq!(t.rows[2][3], s("LOCA"));
}

#[test]
fn headings_are_described_from_both_dictionaries() {
    let t = ags_headings(&parsed());
    assert_eq!(
        names(&t),
        vec!["group", "heading", "unit", "ags_type", "sql_type", "status", "is_key", "ordinal"]
    );
    let row = |heading: &str| {
        t.rows.iter().find(|r| r[1] == s(heading)).expect("listed").clone()
    };
    let loca_id = row("LOCA_ID");
    assert_eq!(loca_id[0], s("LOCA"));
    assert_eq!(loca_id[2], Cell::Null);
    assert_eq!(loca_id[4], s("VARCHAR"));
    // The standard dictionary answers before the file's own.
    assert_eq!(loca_id[6], Cell::Bool(true));
    assert_eq!(loca_id[7], Cell::Int(0));
    assert_eq!(row("LOCA_GL")[2], s("m"));
    assert_eq!(row("LOCA_GL")[4], s("DOUBLE"));
    assert_eq!(row("LOCA_GL")[7], Cell::Int(1));
    // Declared by neither.
    let own = row("LOCA_OWN");
    assert_eq!(own[4..], [s("BOOLEAN"), s("OTHER"), Cell::Bool(false), Cell::Int(2)]);
    // Declared by the file, the first time counts; no TYPE row leaves the type empty.
    let dpth = row("XXXX_DPTH");
    assert_eq!(
        dpth[3..],
        [s(""), s("VARCHAR"), s("key+required"), Cell::Bool(true), Cell::Int(0)]
    );
    assert_eq!(row("XXXX_NOTE")[5], s("OTHER"));
    assert_eq!(t.rows.len(), 1 + 3 + 5 + 2 + 1);
}

#[test]
fn a_dash_or_nothing_is_no_parent() {
    let dict = file_dict_of(&parsed());
    assert_eq!(file_parent(&dict, "XXXX"), Some("LOCA".to_string()));
    assert_eq!(file_parent(&dict, "WWWW"), None);
    assert_eq!(file_parent(&dict, "LOCA"), None);
    let empty = file_dict_of(&ParsedAgs4 { groups: Vec::new() });
    assert_eq!(file_parent(&empty, "XXXX"), None);
}

fn group() -> AgsGroup {
    AgsGroup {
        code: "G".to_string(),
        headings: vec!["G_A".to_string()],
        units: Vec::new(),
        types: vec!["0DP".to_string()],
        rows: Vec::new(),
    }
}

fn desc(parent: Option<&str>) -> GroupDesc {
    GroupDesc {
        code: "G".to_string(),
        parent: parent.map(|p| p.to_string()),
        headings: vec![HeadingDesc {
            name: "G_A".to_string(),
            status: "KEY".to_string(),
            is_key: true,
            ags_type: "X".to_string(),
            unit: None,
            description: String::new(),
        }],
    }
}

#[test]
fn the_standard_parent_comes_first() {
    let g = group();
    let declared = Some("D".to_string());
    assert_eq!(summarize(&g, &Some(desc(Some("S"))), &declared)[3], s("S"));
    assert_eq!(summarize(&g, &Some(desc(None)), &declared)[3], s("D"));
    assert_eq!(summarize(&g, &None, &declared)[3], s("D"));
    assert_eq!(summarize(&g, &None, &None)[3], Cell::Null);
}

#[test]
fn the_standard_status_comes_first() {
    let d = Some(desc(None));
    assert_eq!(status_of(&d, Some("x".to_string()), "G_A"), ("KEY".to_string(), true));
    assert_eq!(status_of(&d, Some("Key".to_string()), "G_B"), ("Key".to_string(), true));
    assert_eq!(status_of(&None, Some("REQ".to_string()), "G_A"), ("REQ".to_string(), false));
    assert_eq!(status_of(&None, None, "G_A"), ("OTHER".to_string(), false));
    assert_eq!(
        describe(&group(), 0, &d, None),
        vec![
            s("G"),
            s("G_A"),
            Cell::Null,
            s("0DP"),
            s("BIGINT"),
            s("KEY"),
            Cell::Bool(true),
            Cell::Int(0),
        ]
    );
}

#[test]
fn groups_are_counted_as_they_are_read() {
    let file = parsed();
    let t = ags_groups(&file);
    for (i, code) in [(0usize, "PROJ"), (1, "LOCA"), (3, "XXXX"), (4, "WWWW")] {
        let read = laterite_ags4::read_ags::read_group(&file, code).unwrap();
        assert_eq!(t.rows[i][0], s(code));
        assert_eq!(t.rows[i][1], Cell::Int(read.rows.len() as i64));
        assert_eq!(t.rows[i][2], Cell::Int(read.columns.len() as i64 - 3));
    }
}

#[test]
fn headings_are_typed_as_they_are_read() {
    let file = parsed();
    let headings = ags_headings(&file);
    let read = laterite_ags4::read_ags::read_group(&file, "LOCA").unwrap();
    let named: Vec<Cell> =
        headings.rows.iter().filter(|r| r[0] == s("LOCA")).map(|r| r[4].clone()).collect();
    for (i, name) in named.iter().enumerate() {
        let want = match read.columns[i + 2].ty {
            laterite_ags4::table::ColType::Double => "DOUBLE",
            laterite_ags4::table::ColType::BigInt => "BIGINT",
            laterite_ags4::table::ColType::Boolean => "BOOLEAN",
            laterite_ags4::table::ColType::Varchar => "VARCHAR",
        };
        assert_eq!(*name, s(want));
    }
}
