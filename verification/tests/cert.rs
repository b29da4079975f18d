use laterite_ags4::ags::{AgsGroup, ParsedAgs4};
use laterite_ags4::cert::{
    bind_slice, clean_verdict_certified, idx_path_for, load_sidecar, parse_edition, slice_plan, sliceable_span,
    sliced_group, DictVersion, Sidecar, SliceRead, Verdict,
};
use laterite_ags4::read_ags::{read_plan, sliced_table, Binding, NextRead};
use laterite_ags4::table::Cell;

#[test]
fn idx_path_is_a_sibling() {
    assert_eq!(idx_path_for("site.ags"), "site.ags.idx");
    assert_eq!(idx_path_for("s3://b/d.ags"), "s3://b/d.ags.idx");
}

#[test]
fn idx_paths_of_two_files_differ() {
    assert_ne!(idx_path_for("a.ags"), idx_path_for("b.ags"));
    assert_eq!(idx_path_for(""), ".idx");
}

#[test]
fn parse_edition_accepts_only_bundled() {
    assert!(parse_edition("4.2").is_ok());
    assert!(parse_edition(" 4.1.1 ").is_ok()); // trimmed
    assert!(parse_edition("4.9").is_err());
}

#[test]
fn parse_edition_names_each_edition() {
    for v in [
        DictVersion::V4_0_3,
        DictVersion::V4_0_4,
        DictVersion::V4_1,
        DictVersion::V4_1_1,
        DictVersion::V4_2,
    ] {
        assert_eq!(parse_edition(v.as_str()), Ok(v));
    }
    assert_eq!(
        parse_edition(" 4.9 "),
        Err("unknown edition '4.9'; expected one of 4.0.3, 4.0.4, 4.1, 4.1.1, 4.2".to_string())
    );
}

#[test]
fn edition_labels_are_the_bundled_ones() {
    let bundled: Vec<&str> =
        laterite_ags4_reference::dict::DictVersion::ALL.iter().map(|v| v.as_str()).collect();
    assert_eq!(bundled, vec!["4.0.3", "4.0.4", "4.1", "4.1.1", "4.2"]);
}

/// An AGS4 file whose LOCA section is redeclared: two `"GROUP","LOCA"` records, one
/// row each.
const REDECLARED: &str = "\"GROUP\",\"LOCA\"\r\n\
    \"HEADING\",\"LOCA_ID\"\r\n\
    \"UNIT\",\"\"\r\n\"TYPE\",\"ID\"\r\n\
    \"DATA\",\"BH01\"\r\n\r\n\
    \"GROUP\",\"PROJ\"\r\n\
    \"HEADING\",\"PROJ_ID\"\r\n\
    \"UNIT\",\"\"\r\n\"TYPE\",\"ID\"\r\n\
    \"DATA\",\"P1\"\r\n\r\n\
    \"GROUP\",\"LOCA\"\r\n\
    \"HEADING\",\"LOCA_ID\"\r\n\
    \"UNIT\",\"\"\r\n\"TYPE\",\"ID\"\r\n\
    \"DATA\",\"BH02\"\r\n";

fn stamp() -> laterite_ags4_core::index::ValidationStamp {
    laterite_ags4_core::index::ValidationStamp {
        validator: "test".into(),
        engine: "0000000000000000".into(),
        compat: None,
        checked_at: "2026-07-14T00:00:00Z".into(),
        edition: laterite_ags4_core::index::EditionInput::Auto {
            resolved: "4.1.1".into(),
            resolution: laterite_ags4_reference::dict::DictResolution::Fallback,
        },
        encoding: "UTF-8".into(),
        custom_dict: None,
        errors: laterite_ags4_core::index::TierCoverage::Measured { count: 0 },
        warnings: laterite_ags4_core::index::TierCoverage::Measured { count: 0 },
        fyi: laterite_ags4_core::index::TierCoverage::Measured { count: 0 },
    }
}

/// What a certificate records of the check that `stamp` describes.
fn verdict() -> Verdict {
    Verdict {
        checked_at: "2026-07-14T00:00:00Z".to_string(),
        edition: "4.1.1".to_string(),
        how: "fallback".to_string(),
        encoding: "UTF-8".to_string(),
        errors: Some(0),
        warnings: Some(0),
        fyi: Some(0),
    }
}

fn assembled() -> laterite_ags4_core::index::Sidecar {
    laterite_ags4_core::index::Sidecar::assemble(REDECLARED.as_bytes(), stamp())
        .expect("assembles")
}

fn loaded() -> Sidecar {
    let json = assembled().to_json().expect("writes");
    load_sidecar(Some(&json)).expect("reads")
}

#[test]
fn a_redeclared_group_refuses_the_sliced_read() {
    assert_eq!(
        assembled().groups.get("LOCA").map(Vec::len),
        Some(2),
        "the certificate records both spans"
    );
    assert_eq!(
        sliceable_span(&loaded(), "LOCA"),
        None,
        "a redeclared group must fall back to the whole-file parse, which sees both rows"
    );
}

#[test]
fn a_single_span_group_is_still_sliced() {
    let (start, end) = sliceable_span(&loaded(), "PROJ").expect("PROJ appears exactly once");
    assert!(start < end);
    let slice = &REDECLARED.as_bytes()[start as usize..end as usize];
    assert!(
        slice.starts_with(b"\"GROUP\",\"PROJ\""),
        "the span begins at PROJ's own GROUP record"
    );
}

#[test]
fn an_absent_group_refuses_the_sliced_read() {
    assert_eq!(sliceable_span(&loaded(), "SAMP"), None);
}

#[test]
fn a_broken_certificate_is_no_certificate() {
    assert_eq!(load_sidecar(None), None);
    assert_eq!(load_sidecar(Some(b"not json")), None);
    let text = String::from_utf8(assembled().to_json().unwrap()).unwrap();
    let older = text.replacen("\"version\": 2", "\"version\": 1", 1);
    assert_ne!(text, older);
    assert_eq!(load_sidecar(Some(older.as_bytes())), None);
}

#[test]
fn a_loaded_certificate_says_what_was_assembled() {
    let s = loaded();
    assert_eq!(s.size, REDECLARED.len() as u64);
    assert_eq!(s.order, vec!["LOCA".to_string(), "PROJ".to_string()]);
    assert_eq!(s.defines, Some(Vec::new()));
    assert_eq!(s.groups.len(), 2);
    assert_eq!(s.verdict, verdict());
}

#[test]
fn another_size_is_not_sliced() {
    let s = loaded();
    let size = REDECLARED.len() as u64;
    let span = slice_plan(&s, size, "PROJ");
    assert_eq!(span, sliceable_span(&s, "PROJ"));
    assert_eq!(slice_plan(&s, size + 1, "PROJ"), None);
    assert_eq!(slice_plan(&s, size, "LOCA"), None);
}

#[test]
fn a_span_outside_the_file_is_not_sliced() {
    let mut s = Sidecar {
        size: 10,
        groups: vec![("A".to_string(), vec![(2, 11)])],
        order: vec!["A".to_string()],
        defines: None,
        verdict: verdict(),
    };
    assert_eq!(slice_plan(&s, 10, "A"), None);
    s.groups = vec![("A".to_string(), vec![(8, 4)])];
    assert_eq!(slice_plan(&s, 10, "A"), None);
    s.groups = vec![("A".to_string(), vec![(4, 10)])];
    assert_eq!(slice_plan(&s, 10, "A"), Some((4, 10)));
}

#[test]
fn a_slice_reads_as_its_group() {
    let s = loaded();
    let size = REDECLARED.len() as u64;
    let (start, end) = slice_plan(&s, size, "PROJ").unwrap();
    let bytes = &REDECLARED.as_bytes()[start as usize..end as usize];
    let (g, binding) = sliced_group(&s, size, bytes, "PROJ").unwrap();
    assert_eq!(binding, Binding::Keyed);
    assert_eq!(
        g,
        AgsGroup {
            code: "PROJ".to_string(),
            headings: vec!["PROJ_ID".to_string()],
            units: vec![String::new()],
            types: vec!["ID".to_string()],
            rows: vec![vec!["P1".to_string()]],
        }
    );
    // Fewer bytes than the span, another size, or another group: the whole file.
    assert_eq!(sliced_group(&s, size, &bytes[1..], "PROJ"), None);
    assert_eq!(sliced_group(&s, size + 1, bytes, "PROJ"), None);
    assert_eq!(sliced_group(&s, size, bytes, "LOCA"), None);
}

#[test]
fn a_slice_that_does_not_hold_its_group_is_refused() {
    let s = Sidecar {
        size: 100,
        groups: vec![("PROJ".to_string(), vec![(0, 14)])],
        order: vec!["PROJ".to_string()],
        defines: None,
        verdict: verdict(),
    };
    assert_eq!(sliced_group(&s, 100, b"\"GROUP\",\"ABCD\"", "PROJ"), None);
    assert_eq!(sliced_group(&s, 100, b"\"DATA\",\"ABCDE\"", "PROJ"), None);
}

#[test]
fn a_declared_group_is_sliced_without_keys() {
    let bytes = b"\"GROUP\",\"XXXX\"\r\n\"HEADING\",\"XXXX_ID\"\r\n\"DATA\",\"1\"\r\n";
    let size = bytes.len() as u64;
    let mut s = Sidecar {
        size,
        groups: vec![("XXXX".to_string(), vec![(0, size)])],
        order: vec!["XXXX".to_string()],
        defines: Some(vec!["XXXX".to_string()]),
        verdict: verdict(),
    };
    let (g, binding) = sliced_group(&s, size, bytes, "XXXX").unwrap();
    assert_eq!(binding, Binding::Unkeyed);
    assert_eq!(g.rows, vec![vec!["1".to_string()]]);
    let table = sliced_table(&s, size, bytes, "XXXX").unwrap();
    assert_eq!(table.rows.len(), 1);
    assert_eq!(table.rows[0][0], Cell::Null);
    assert_eq!(table.rows[0][1], Cell::Null);
    assert_eq!(table.rows[0][2], Cell::Str("1".to_string()));
    // A group that neither dictionary has goes to the whole file, which refuses it.
    s.defines = Some(Vec::new());
    assert_eq!(sliced_group(&s, size, bytes, "XXXX"), None);
    s.defines = None;
    assert_eq!(sliced_group(&s, size, bytes, "XXXX"), None);
}

#[test]
fn the_sliced_read_agrees_with_the_whole_read() {
    let s = loaded();
    let size = REDECLARED.len() as u64;
    let (start, end) = slice_plan(&s, size, "PROJ").unwrap();
    let bytes = &REDECLARED.as_bytes()[start as usize..end as usize];
    let fast = sliced_table(&s, size, bytes, "PROJ").unwrap();
    let slow = laterite_ags4::read_ags::read_ags_text(REDECLARED, "PROJ").unwrap();
    assert_eq!(fast, slow);
}

#[test]
fn only_a_utf8_read_is_planned_by_certificate() {
    let s = Some(loaded());
    let size = REDECLARED.len() as u64;
    let (start, end) = slice_plan(s.as_ref().unwrap(), size, "PROJ").unwrap();
    assert_eq!(read_plan("UTF-8", &s, size, "PROJ"), NextRead::Slice(start, end));
    assert_eq!(read_plan("windows-1252", &s, size, "PROJ"), NextRead::Whole);
    assert_eq!(read_plan("UTF-8", &s, size, "LOCA"), NextRead::Whole);
    assert_eq!(read_plan("UTF-8", &None, size, "PROJ"), NextRead::Whole);
}

#[test]
fn a_range_is_read_to_its_end() {
    let mut r = SliceRead::new(3, 8);
    assert_eq!(r.missing(), 5);
    assert!(r.feed(b"ab"));
    assert_eq!(r.missing(), 3);
    assert!(r.feed(b"cde"));
    assert_eq!(r.missing(), 0);
    assert_eq!(r.buf, b"abcde".to_vec());
    let mut short = SliceRead::new(0, 4);
    assert!(short.feed(b"ab"));
    assert!(!short.feed(b""));
    assert!(SliceRead::new(4, 4).feed(b""));
}

#[test]
fn a_foreign_certificate_does_not_vouch() {
    // The stamp names another engine, so its verdict is not this one's.
    let json = assembled().to_json().unwrap();
    assert!(!clean_verdict_certified(Some(&json), REDECLARED.as_bytes(), None));
    assert!(!clean_verdict_certified(None, REDECLARED.as_bytes(), None));
    assert!(!clean_verdict_certified(Some(b"{}"), REDECLARED.as_bytes(), None));
}

#[test]
fn an_own_certificate_vouches_for_its_bytes_alone() {
    let mut s = stamp();
    s.validator = laterite_ags4_core::index::ENGINE_IDENTITY.to_string();
    s.engine = laterite_ags4_validator::ENGINE_FINGERPRINT.to_string();
    let json = laterite_ags4_core::index::Sidecar::assemble(REDECLARED.as_bytes(), s)
        .unwrap()
        .to_json()
        .unwrap();
    assert!(clean_verdict_certified(Some(&json), REDECLARED.as_bytes(), None));
    assert!(!clean_verdict_certified(Some(&json), REDECLARED.as_bytes(), Some("4.2")));
    let edited = REDECLARED.replace("BH01", "BH09");
    assert!(!clean_verdict_certified(Some(&json), edited.as_bytes(), None));
}

#[test]
fn a_group_is_found_by_its_code() {
    let file = ParsedAgs4 { groups: vec![loaded_group("A"), loaded_group("B")] };
    assert_eq!(file.get("B"), Some(&file.groups[1]));
    assert_eq!(file.get("C"), None);
    assert_eq!(file.order(), vec!["A".to_string(), "B".to_string()]);
}

fn loaded_group(code: &str) -> AgsGroup {
    AgsGroup {
        code: code.to_string(),
        headings: Vec::new(),
        units: Vec::new(),
        types: Vec::new(),
        rows: Vec::new(),
    }
}

#[test]
fn a_slice_is_bound_by_the_dictionaries() {
    let defines = Some(vec!["A".to_string(), "B".to_string()]);
    assert_eq!(bind_slice(true, &None, "B"), Some(Binding::Keyed));
    assert_eq!(bind_slice(false, &defines, "B"), Some(Binding::Unkeyed));
    assert_eq!(bind_slice(false, &defines, "C"), None);
    assert_eq!(bind_slice(false, &None, "B"), None);
}
