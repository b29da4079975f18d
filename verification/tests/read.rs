use laterite_ags4::ags::{AgsGroup, ParsedAgs4};
use laterite_ags4::read_ags::{
    bind_as, binding_for, build_table, group_code, intern, read_ags_text, read_group, resolve_group,
    table_of, Binding, NamePool,
};
use laterite_ags4::source::parse_source;
use laterite_ags4::table::{Cell, ColType, Table};

const MINI: &str = "\"GROUP\",\"PROJ\"\r\n\
    \"HEADING\",\"PROJ_ID\"\r\n\"UNIT\",\"\"\r\n\"TYPE\",\"ID\"\r\n\
    \"DATA\",\"P1\"\r\n\r\n\
    \"GROUP\",\"LOCA\"\r\n\
    \"HEADING\",\"LOCA_ID\",\"LOCA_GL\",\"LOCA_FDEP\"\r\n\
    \"UNIT\",\"\",\"m\",\"m\"\r\n\"TYPE\",\"ID\",\"2DP\",\"2DP\"\r\n\
    \"DATA\",\"BH01\",\"50.25\",\"\"\r\n\
    \"DATA\",\"BH02\",\"deep\",\"12.00\"\r\n\r\n\
    \"GROUP\",\"SAMP\"\r\n\
    \"HEADING\",\"LOCA_ID\",\"SAMP_TOP\",\"SAMP_REF\",\"SAMP_TYPE\",\"SAMP_ID\"\r\n\
    \"UNIT\",\"\",\"m\",\"\",\"\",\"\"\r\n\"TYPE\",\"ID\",\"2DP\",\"X\",\"PA\",\"ID\"\r\n\
    \"DATA\",\"BH02\",\"1.50\",\"1\",\"U\",\"S1\"\r\n";

const CUSTOM: &str = "\"GROUP\",\"DICT\"\r\n\
    \"HEADING\",\"DICT_TYPE\",\"DICT_GRP\",\"DICT_HDNG\",\"DICT_STAT\",\"DICT_PGRP\"\r\n\
    \"UNIT\",\"\",\"\",\"\",\"\",\"\"\r\n\"TYPE\",\"X\",\"X\",\"X\",\"X\",\"X\"\r\n\
    \"DATA\",\"GROUP\",\"XXXX\",\"\",\"\",\"LOCA\"\r\n\
    \"DATA\",\"HEADING\",\"XXXX\",\"XXXX_DPTH\",\"KEY\",\"\"\r\n\
    \"DATA\",\"HEADING\",\"YYYY\",\"YYYY_A\",\"OTHER\",\"\"\r\n\r\n\
    \"GROUP\",\"XXXX\"\r\n\"HEADING\",\"XXXX_DPTH\"\r\n\"UNIT\",\"m\"\r\n\"TYPE\",\"2DP\"\r\n\
    \"DATA\",\"1.00\"\r\n\"DATA\",\"2.00\"\r\n\r\n\
    \"GROUP\",\"YYYY\"\r\n\"HEADING\",\"YYYY_A\"\r\n\"DATA\",\"q\"\r\n\r\n\
    \"GROUP\",\"ZZZZ\"\r\n\"HEADING\",\"ZZZZ_A\"\r\n\"DATA\",\"q\"\r\n";

fn file(text: &str) -> ParsedAgs4 {
    parse_source("t", text.as_bytes(), "UTF-8").unwrap()
}

fn names(t: &Table) -> Vec<&str> {
    t.columns.iter().map(|c| c.name.as_str()).collect()
}

fn s(text: &str) -> Cell {
    Cell::Str(text.to_string())
}

#[test]
fn a_group_is_a_typed_table() {
    let t = read_ags_text(MINI, " loca ").unwrap();
    assert_eq!(
        names(&t),
        vec!["_id", "_parent_id", "LOCA_ID", "LOCA_GL", "LOCA_FDEP", "_content_hash"]
    );
    let types: Vec<ColType> = t.columns.iter().map(|c| c.ty).collect();
    assert_eq!(
        types,
        vec![
            ColType::Varchar,
            ColType::Varchar,
            ColType::Varchar,
            ColType::Double,
            ColType::Double,
            ColType::Varchar,
        ]
    );
    assert_eq!(t.rows.len(), 2);
    assert_eq!(t.rows[0][2], s("BH01"));
    assert_eq!(t.rows[0][3], Cell::Double(50.25f64.to_bits()));
    assert_eq!(t.rows[0][4], Cell::Null);
    assert_eq!(t.rows[1][3], Cell::Null);
    assert_eq!(t.rows[1][4], Cell::Double(12.0f64.to_bits()));
    for row in &t.rows {
        assert_eq!(row.len(), t.columns.len());
    }
}

#[test]
fn identifiers_are_those_of_the_keychain() {
    let t = read_ags_text(MINI, "LOCA").unwrap();
    let id = |code: &str, chain: &[(&str, &str)]| {
        let chain: Vec<(String, String)> =
            chain.iter().map(|(a, b)| (a.to_string(), b.to_string())).collect();
        s(&laterite_ags4_core::keychain::content_id(code, &chain).to_string())
    };
    assert_eq!(t.rows[0][0], id("LOCA", &[("LOCA_ID", "BH01")]));
    assert_eq!(t.rows[1][0], id("LOCA", &[("LOCA_ID", "BH02")]));
    let hash = laterite_ags4_core::keychain::content_hash(
        "LOCA",
        &[
            ("LOCA_ID", "", "ID", "BH01"),
            ("LOCA_GL", "m", "2DP", "50.25"),
            ("LOCA_FDEP", "m", "2DP", ""),
        ],
    );
    assert_eq!(t.rows[0][5], s(&hash.to_string()));
}

#[test]
fn a_child_joins_its_parent() {
    let loca = read_ags_text(MINI, "LOCA").unwrap();
    let samp = read_ags_text(MINI, "SAMP").unwrap();
    assert_eq!(samp.rows[0][1], loca.rows[1][0]);
    assert_ne!(samp.rows[0][1], loca.rows[0][0]);
}

#[test]
fn the_same_keys_have_the_same_id_in_another_file() {
    let other = "\"GROUP\",\"LOCA\"\r\n\"HEADING\",\"LOCA_GL\",\"LOCA_ID\"\r\n\"TYPE\",\"2DP\",\"ID\"\r\n\"DATA\",\"1.00\",\"BH02\"\r\n";
    let a = read_ags_text(MINI, "LOCA").unwrap();
    let b = read_ags_text(other, "LOCA").unwrap();
    assert_eq!(a.rows[1][0], b.rows[0][0]);
    assert_ne!(a.rows[1].last(), b.rows[0].last());
}

#[test]
fn a_declared_group_has_null_identifiers() {
    let t = read_ags_text(CUSTOM, "XXXX").unwrap();
    assert_eq!(names(&t), vec!["_id", "_parent_id", "XXXX_DPTH", "_content_hash"]);
    assert_eq!(t.rows.len(), 2);
    assert_eq!(t.rows[1][0], Cell::Null);
    assert_eq!(t.rows[1][1], Cell::Null);
    assert_eq!(t.rows[1][2], Cell::Double(2.0f64.to_bits()));
    assert!(matches!(t.rows[1][3], Cell::Str(_)));
    // A heading alone declares its group as well.
    assert_eq!(read_ags_text(CUSTOM, "YYYY").unwrap().rows.len(), 1);
}

#[test]
fn an_undeclared_group_is_refused() {
    assert_eq!(
        read_ags_text(CUSTOM, "ZZZZ"),
        Err("group 'ZZZZ' is not in the AGS dictionary and the file's own DICT group does not declare it (Rule 18); a custom group is readable once the file declares it".to_string())
    );
}

#[test]
fn an_absent_group_lists_what_is_there() {
    assert_eq!(
        read_ags_text(MINI, "geol"),
        Err("group 'GEOL' not found (groups present: PROJ, LOCA, SAMP)".to_string())
    );
    assert_eq!(
        read_ags_text("", "LOCA"),
        Err("group 'LOCA' not found (groups present: )".to_string())
    );
}

#[test]
fn text_that_does_not_parse_is_an_error() {
    let e = read_ags_text("\"DATA\",\"1\"\r\n", "LOCA").unwrap_err();
    assert!(e.starts_with("read_ags_text: input did not parse as AGS4 ("), "{e}");
    assert!(e.ends_with(")"));
}

#[test]
fn bindings_follow_the_dictionaries() {
    let f = file(CUSTOM);
    assert_eq!(binding_for(&f, "LOCA"), Ok(Binding::Keyed));
    assert_eq!(binding_for(&f, "XXXX"), Ok(Binding::Unkeyed));
    assert!(binding_for(&f, "ZZZZ").is_err());
    assert_eq!(bind_as("G", true, false), Ok(Binding::Keyed));
    assert_eq!(bind_as("G", true, true), Ok(Binding::Keyed));
    assert_eq!(bind_as("G", false, true), Ok(Binding::Unkeyed));
    assert!(bind_as("G", false, false).is_err());
}

#[test]
fn group_arguments_are_capitals_without_spaces() {
    assert_eq!(group_code("  loca\t"), "LOCA");
    assert_eq!(group_code("straße"), "STRASSE");
}

#[test]
fn groups_are_resolved_by_code() {
    let f = file(MINI);
    assert_eq!(resolve_group(&f, "SAMP").unwrap().rows.len(), 1);
    assert!(resolve_group(&f, "samp").is_err());
    assert_eq!(read_group(&f, "PROJ").unwrap().rows.len(), 1);
}

#[test]
fn identifiers_are_put_where_they_belong() {
    let g = AgsGroup {
        code: "A".to_string(),
        headings: vec!["A_X".to_string()],
        units: Vec::new(),
        types: Vec::new(),
        rows: vec![vec!["1".to_string()], vec!["2".to_string()]],
    };
    let ids = vec![
        ("i1".to_string(), Some("p1".to_string())),
        ("i2".to_string(), None),
    ];
    let t = table_of(&g, "A", Some(ids));
    assert_eq!(t.rows[0][..3], [s("i1"), s("p1"), s("1")]);
    assert_eq!(t.rows[1][..3], [s("i2"), Cell::Null, s("2")]);
    assert_eq!(t.columns[2].ty, ColType::Varchar);
    let u = build_table(&g, "A", &Binding::Unkeyed);
    assert_eq!(u.rows[1][..3], [Cell::Null, Cell::Null, s("2")]);
}

#[test]
fn names_are_kept_once() {
    let mut pool = NamePool::new();
    let a = intern(&mut pool, "LOCA_ID");
    let b = intern(&mut pool, "LOCA_GL");
    assert_ne!(a, b);
    assert_eq!(intern(&mut pool, "LOCA_ID"), a);
    assert_eq!(intern(&mut pool, "LOCA_GL"), b);
    assert_eq!(pool.names, vec!["LOCA_ID".to_string(), "LOCA_GL".to_string()]);
}

#[test]
fn identifiers_and_fingerprints_are_uuids() {
    let is_uuid8 = |c: &Cell| match c {
        Cell::Str(t) => {
            t.len() == 36
                && t.chars().enumerate().all(|(i, c)| match i {
                    8 | 13 | 18 | 23 => c == '-',
                    14 => c == '8',
                    19 => "89ab".contains(c),
                    _ => c.is_ascii_digit() || ('a'..='f').contains(&c),
                })
        },
        _ => false,
    };
    for group in ["PROJ", "LOCA", "SAMP"] {
        for row in read_ags_text(MINI, group).unwrap().rows {
            assert!(is_uuid8(&row[0]), "{group}");
            assert!(row[1] == Cell::Null || is_uuid8(&row[1]), "{group}");
            assert!(is_uuid8(row.last().unwrap()), "{group}");
        }
    }
    let custom = read_ags_text(CUSTOM, "XXXX").unwrap();
    assert!(is_uuid8(custom.rows[0].last().unwrap()));
}
