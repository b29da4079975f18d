use laterite_ags4::dict_fns::{
    ags_dictionary, ags_relationships, as_dictionary, dictionary_table, entry_of, link, links_table,
    DictEntry, DictGroup, EditionEntry,
};
use laterite_ags4::registry::{GroupDesc, HeadingDesc};
use laterite_ags4::rules::{ags_rules, rule_cells, rules_table, RuleMeta};
use laterite_ags4::table::{Cell, Table};

fn s(text: &str) -> Cell {
    Cell::Str(text.to_string())
}

fn names(t: &Table) -> Vec<&str> {
    t.columns.iter().map(|c| c.name.as_str()).collect()
}

#[test]
fn the_whole_dictionary_is_the_registry() {
    let t = ags_dictionary(None).unwrap();
    assert_eq!(
        names(&t),
        vec![
            "group",
            "parent",
            "heading",
            "status",
            "ags_type",
            "sql_type",
            "unit",
            "description",
            "ordinal",
        ]
    );
    let reg = laterite_ags4_core::registry::registry();
    let n: usize = reg.iter().map(|g| g.headings.len()).sum();
    assert_eq!(t.rows.len(), n);
    let first = reg.iter().next().unwrap();
    assert_eq!(t.rows[0][0], s(&first.code));
    assert_eq!(t.rows[0][2], s(&first.headings[0].name));
    let loca = t.rows.iter().find(|r| r[2] == s("LOCA_ID") && r[0] == s("LOCA")).unwrap();
    assert_eq!(loca[1], s("PROJ"));
    assert_eq!(loca[4], s("ID"));
    assert_eq!(loca[5], s("VARCHAR"));
    assert_eq!(loca[6], Cell::Null);
}

#[test]
fn an_edition_is_listed_in_the_order_of_its_codes() {
    let t = ags_dictionary(Some(" 4.1 ")).unwrap();
    let dict = laterite_ags4_reference::dict::Dictionary::bundled(
        laterite_ags4_reference::dict::DictVersion::V4_1,
    );
    let mut codes: Vec<String> = dict.group_codes().map(|c| c.to_string()).collect();
    codes.sort_unstable();
    let mut listed: Vec<String> = Vec::new();
    for r in &t.rows {
        if let Cell::Str(c) = &r[0] {
            if listed.last() != Some(c) {
                listed.push(c.clone());
            }
        }
    }
    assert_eq!(listed, codes);
    let n: usize = codes.iter().map(|c| dict.group_headings(c).len()).sum();
    assert_eq!(t.rows.len(), n);
    let gl = t.rows.iter().find(|r| r[2] == s("LOCA_GL")).unwrap();
    let entry = dict.heading("LOCA", "LOCA_GL").unwrap();
    assert_eq!(gl[0], s("LOCA"));
    assert_eq!(gl[1], s("PROJ"));
    assert_eq!(gl[3], s(entry.status));
    assert_eq!(gl[4], s(entry.ags_type));
    assert_eq!(gl[5], s("DOUBLE"));
    assert_eq!(gl[6], s(entry.unit));
    assert_eq!(gl[7], s(entry.desc));
}

#[test]
fn editions_differ_and_unknown_ones_are_refused() {
    let a = ags_dictionary(Some("4.0.3")).unwrap().rows.len();
    let b = ags_dictionary(Some("4.2")).unwrap().rows.len();
    assert_ne!(a, b);
    assert_eq!(
        ags_dictionary(Some("5")),
        Err("unknown edition '5'; expected one of 4.0.3, 4.0.4, 4.1, 4.1.1, 4.2".to_string())
    );
}

#[test]
fn a_dictionary_lists_group_by_group() {
    let entry = |h: &str| DictEntry {
        heading: h.to_string(),
        status: "KEY".to_string(),
        ags_type: "0DP".to_string(),
        unit: String::new(),
        desc: "d".to_string(),
    };
    let groups = vec![
        DictGroup { code: "A".to_string(), parent: None, entries: vec![entry("A_1"), entry("A_2")] },
        DictGroup { code: "E".to_string(), parent: None, entries: Vec::new() },
        DictGroup {
            code: "B".to_string(),
            parent: Some("A".to_string()),
            entries: vec![entry("B_1")],
        },
    ];
    let t = dictionary_table(&groups);
    assert_eq!(t.rows.len(), 3);
    assert_eq!(
        t.rows[1],
        vec![
            s("A"),
            Cell::Null,
            s("A_2"),
            s("KEY"),
            s("0DP"),
            s("BIGINT"),
            Cell::Null,
            s("d"),
            Cell::Int(1),
        ]
    );
    assert_eq!(t.rows[2][..3], [s("B"), s("A"), s("B_1")]);
    assert_eq!(t.rows[2][8], Cell::Int(0));
}

#[test]
fn entries_are_made_of_what_is_said() {
    let said = EditionEntry {
        status: "KEY".to_string(),
        ags_type: "X".to_string(),
        unit: "m".to_string(),
        desc: "d".to_string(),
    };
    let e = entry_of("H".to_string(), Some(said));
    assert_eq!((e.heading.as_str(), e.unit.as_str()), ("H", "m"));
    let e = entry_of("H".to_string(), None);
    assert_eq!((e.heading.as_str(), e.status.as_str(), e.desc.as_str()), ("H", "", ""));
    let d = GroupDesc {
        code: "G".to_string(),
        parent: None,
        headings: vec![HeadingDesc {
            name: "G_A".to_string(),
            status: "KEY".to_string(),
            is_key: true,
            ags_type: "X".to_string(),
            unit: None,
            description: "t".to_string(),
        }],
    };
    let groups = as_dictionary(&vec![d]);
    assert_eq!(groups[0].entries[0].unit, "");
    assert_eq!(groups[0].entries[0].desc, "t");
}

#[test]
fn relationships_are_those_of_the_registry() {
    let t = ags_relationships();
    assert_eq!(names(&t), vec!["child", "parent", "shared_keys"]);
    let reg = laterite_ags4_core::registry::registry();
    let want: Vec<Vec<Cell>> = reg
        .iter()
        .filter(|g| g.parent.is_some())
        .map(|g| {
            vec![
                s(&g.code),
                s(g.parent.as_ref().unwrap()),
                s(&laterite_ags4_core::keychain::shared_keys(reg, g).join(",")),
            ]
        })
        .collect();
    assert_eq!(t.rows, want);
    assert!(t.rows.contains(&vec![s("SAMP"), s("LOCA"), s("LOCA_ID")]));
    assert_eq!(
        link("C", "P", &vec!["K1".to_string(), "K2".to_string()]),
        vec![s("C"), s("P"), s("K1,K2")]
    );
}

#[test]
fn the_rules_are_those_of_the_catalogue() {
    let t = ags_rules();
    assert_eq!(
        names(&t),
        vec!["rule", "title", "checks", "severity", "fixable", "observations"]
    );
    let meta: serde_json::Value =
        serde_json::from_str(laterite_ags4_validator::rule_metadata_json()).unwrap();
    let rules = meta["rules"].as_array().unwrap();
    assert_eq!(t.rows.len(), rules.len());
    assert!(t.rows.len() > 10);
    for (row, rule) in t.rows.iter().zip(rules) {
        assert_eq!(row[0], s(rule["rule"].as_str().unwrap()));
        assert_eq!(row[1], s(rule["title"].as_str().unwrap()));
        if let Some(b) = rule["fixable"].as_bool() {
            assert_eq!(row[4], Cell::Bool(b));
        }
    }
}

#[test]
fn a_rule_says_null_where_it_says_nothing() {
    let m = RuleMeta {
        rule: Some("Rule 1".to_string()),
        title: Some(String::new()),
        checks: None,
        severity: Some("error".to_string()),
        fixable: Some(false),
        observations: Some(vec![Some("O-1".to_string()), None, Some("O-2".to_string())]),
    };
    assert_eq!(
        rule_cells(&m),
        vec![s("Rule 1"), Cell::Null, Cell::Null, s("error"), Cell::Bool(false), s("O-1,O-2")]
    );
    let bare = RuleMeta {
        rule: None,
        title: None,
        checks: None,
        severity: None,
        fixable: None,
        observations: Some(vec![None]),
    };
    assert_eq!(rule_cells(&bare), vec![Cell::Null; 6]);
    assert_eq!(rules_table(&vec![m, bare]).rows.len(), 2);
}

#[test]
fn only_children_are_linked() {
    let group = |code: &str, parent: Option<&str>| GroupDesc {
        code: code.to_string(),
        parent: parent.map(|p| p.to_string()),
        headings: Vec::new(),
    };
    let all = vec![group("A", None), group("B", Some("A")), group("C", Some("A"))];
    let keys = vec![Vec::new(), vec!["A_ID".to_string()], Vec::new()];
    assert_eq!(
        links_table(&all, &keys).rows,
        vec![vec![s("B"), s("A"), s("A_ID")], vec![s("C"), s("A"), s("")]]
    );
}

#[test]
fn shared_keys_are_key_headings_of_both() {
    let reg = laterite_ags4_core::registry::registry();
    for row in ags_relationships().rows {
        if let (Cell::Str(child), Cell::Str(parent), Cell::Str(keys)) = (&row[0], &row[1], &row[2]) {
            for key in keys.split(',').filter(|k| !k.is_empty()) {
                for code in [child, parent] {
                    let g = reg.get(code).unwrap();
                    assert!(g.key_headings().any(|h| h.name == key), "{code} {key}");
                }
            }
        }
    }
}
