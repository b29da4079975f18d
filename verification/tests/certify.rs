use laterite_ags4::cert::{clean_verdict_certified, load_sidecar, slice_plan, DictVersion, Verdict};
use laterite_ags4::certify::{
    certified, certify_ags_text, certify_checked, mint, refuse, severity_counts, status_table,
    text_row, Chosen,
};
use laterite_ags4::table::{Cell, Table};
use laterite_ags4::validate::{
    answered_by_certificate, cannot_check, certificate_may_answer, findings_table, forced_edition, forced_version,
    severity_label, tiers, Finding, Severity,
};

const NOW: &str = "2026-01-01T00:00:00Z";

fn s(text: &str) -> Cell {
    Cell::Str(text.to_string())
}

fn finding(severity: Severity) -> Finding {
    Finding {
        rule: "AGS Format Rule 8".to_string(),
        line: Some(7),
        group: "LOCA".to_string(),
        severity,
        desc: "d".to_string(),
    }
}

fn names(t: &Table) -> Vec<&str> {
    t.columns.iter().map(|c| c.name.as_str()).collect()
}

/// A file with the groups that every transfer has to have.
const CLEAN: &str = "\"GROUP\",\"PROJ\"\r\n\
    \"HEADING\",\"PROJ_ID\",\"PROJ_NAME\",\"PROJ_LOC\",\"PROJ_CLNT\",\"PROJ_CONT\",\"PROJ_ENG\",\"PROJ_MEMO\",\"FILE_FSET\"\r\n\
    \"UNIT\",\"\",\"\",\"\",\"\",\"\",\"\",\"\",\"\"\r\n\
    \"TYPE\",\"ID\",\"X\",\"X\",\"X\",\"X\",\"X\",\"X\",\"X\"\r\n\
    \"DATA\",\"P1\",\"Name\",\"\",\"\",\"\",\"\",\"\",\"\"\r\n\r\n\
    \"GROUP\",\"TRAN\"\r\n\
    \"HEADING\",\"TRAN_ISNO\",\"TRAN_DATE\",\"TRAN_PROD\",\"TRAN_STAT\",\"TRAN_DESC\",\"TRAN_AGS\",\"TRAN_RECV\",\"TRAN_DLIM\",\"TRAN_RCON\",\"TRAN_REM\",\"FILE_FSET\"\r\n\
    \"UNIT\",\"\",\"yyyy-mm-dd\",\"\",\"\",\"\",\"\",\"\",\"\",\"\",\"\",\"\"\r\n\
    \"TYPE\",\"X\",\"DT\",\"X\",\"X\",\"X\",\"X\",\"X\",\"X\",\"X\",\"X\",\"X\"\r\n\
    \"DATA\",\"1\",\"2020-08-18\",\"Me\",\"Final\",\"All\",\"4.1\",\"You\",\"|\",\"+\",\"\",\"\"\r\n\r\n\
    \"GROUP\",\"UNIT\"\r\n\
    \"HEADING\",\"UNIT_UNIT\",\"UNIT_DESC\",\"UNIT_REM\",\"FILE_FSET\"\r\n\
    \"UNIT\",\"\",\"\",\"\",\"\"\r\n\
    \"TYPE\",\"X\",\"X\",\"X\",\"X\"\r\n\
    \"DATA\",\"yyyy-mm-dd\",\"date\",\"\",\"\"\r\n\r\n\
    \"GROUP\",\"TYPE\"\r\n\
    \"HEADING\",\"TYPE_TYPE\",\"TYPE_DESC\",\"FILE_FSET\"\r\n\
    \"UNIT\",\"\",\"\",\"\"\r\n\
    \"TYPE\",\"X\",\"X\",\"X\"\r\n\
    \"DATA\",\"ID\",\"Unique Identifier\",\"\"\r\n\
    \"DATA\",\"X\",\"Text\",\"\"\r\n\
    \"DATA\",\"DT\",\"Date time\",\"\"\r\n";

#[test]
fn findings_are_counted_by_severity() {
    let f = vec![
        finding(Severity::Error),
        finding(Severity::Fyi),
        finding(Severity::Error),
        finding(Severity::Warning),
    ];
    assert_eq!(severity_counts(&f), (2, 1, 1));
    assert_eq!(severity_counts(&Vec::new()), (0, 0, 0));
}

#[test]
fn findings_become_rows() {
    let mut whole = finding(Severity::Fyi);
    whole.line = None;
    let t = findings_table(&vec![finding(Severity::Error), whole]);
    assert_eq!(names(&t), vec!["rule", "line", "group", "severity", "desc"]);
    assert_eq!(
        t.rows,
        vec![
            vec![s("AGS Format Rule 8"), Cell::Int(7), s("LOCA"), s("error"), s("d")],
            vec![s("AGS Format Rule 8"), Cell::Null, s("LOCA"), s("fyi"), s("d")],
        ]
    );
    assert_eq!(severity_label(Severity::Warning), "warning");
}

#[test]
fn a_check_is_asked_for_by_its_parameters() {
    assert_eq!(tiers(None, None), (true, false));
    assert_eq!(tiers(Some(false), Some(true)), (false, true));
    assert_eq!(tiers(Some(true), Some(false)), (true, false));
    assert_eq!(forced_edition(None), None);
    assert_eq!(forced_edition(Some("  ")), None);
    assert_eq!(forced_edition(Some(" 4.2 ")), Some("4.2".to_string()));
    assert_eq!(forced_version(&None), Ok(None));
    assert_eq!(forced_version(&Some("4.2".to_string())), Ok(Some(DictVersion::V4_2)));
    assert!(forced_version(&Some("9".to_string())).is_err());
    assert!(certificate_may_answer(false, false, "UTF-8"));
    assert!(!certificate_may_answer(true, false, "UTF-8"));
    assert!(!certificate_may_answer(false, true, "UTF-8"));
    assert!(!certificate_may_answer(false, false, "windows-1252"));
    assert_eq!(cannot_check("validate_ags", "p", "gone"), "validate_ags: 'p': gone");
}

#[test]
fn a_file_with_errors_is_refused() {
    let row = refuse("p.ags", &vec![finding(Severity::Error), finding(Severity::Fyi)], "4.1").unwrap();
    assert_eq!(
        row,
        vec![
            s("p.ags"),
            s("p.ags.idx"),
            Cell::Bool(false),
            Cell::Int(0),
            Cell::Int(1),
            Cell::Int(0),
            Cell::Int(1),
            s("4.1"),
            s("not certified: 1 error finding(s) — run validate_ags('p.ags') and fix them first"),
        ]
    );
    assert_eq!(refuse("p.ags", &vec![finding(Severity::Warning)], "4.1"), None);
}

#[test]
fn a_clean_file_is_reported_as_certified() {
    let row = certified("p.ags", &vec![finding(Severity::Warning)], "4.1", 4);
    assert_eq!(
        row,
        vec![
            s("p.ags"),
            s("p.ags.idx"),
            Cell::Bool(true),
            Cell::Int(4),
            Cell::Int(0),
            Cell::Int(1),
            Cell::Int(0),
            s("4.1"),
            s("certified 4 group(s) → p.ags.idx"),
        ]
    );
    let t = status_table(row);
    assert_eq!(t.columns.len(), 9);
    assert_eq!(names(&t)[1], "index_path");
}

#[test]
fn a_minted_certificate_is_trusted_and_followed() {
    let bytes = CLEAN.as_bytes();
    let (groups, json) = mint("p", bytes, "4.1", Some(Chosen::Exact), "UTF-8", NOW).unwrap();
    assert_eq!(groups, 4);
    assert!(clean_verdict_certified(Some(&json), bytes, None));
    assert!(!clean_verdict_certified(Some(&json), bytes, Some("4.1")));
    let sidecar = load_sidecar(Some(&json)).unwrap();
    assert_eq!(sidecar.size, bytes.len() as u64);
    let (start, end) = slice_plan(&sidecar, bytes.len() as u64, "TRAN").unwrap();
    assert!(bytes[start as usize..end as usize].starts_with(b"\"GROUP\",\"TRAN\""));
    let (_, forced) = mint("p", bytes, "4.2", None, "UTF-8", NOW).unwrap();
    assert!(clean_verdict_certified(Some(&forced), bytes, Some("4.2")));
    assert!(!clean_verdict_certified(Some(&forced), bytes, None));
}

#[test]
fn a_certificate_answers_a_check_for_errors_alone() {
    let bytes = CLEAN.as_bytes();
    let (_, json) = mint("p", bytes, "4.1", Some(Chosen::Exact), "UTF-8", NOW).unwrap();
    let answers = |warnings, fyi, encoding, forced| {
        answered_by_certificate(warnings, fyi, encoding, Some(&json), bytes, forced)
    };
    assert!(answers(false, false, "UTF-8", None));
    assert!(!answers(true, false, "UTF-8", None));
    assert!(!answers(false, true, "UTF-8", None));
    assert!(!answers(false, false, "windows-1252", None));
    assert!(!answers(false, false, "UTF-8", Some("4.1")));
    assert!(!answered_by_certificate(false, false, "UTF-8", None, bytes, None));
    assert!(!answered_by_certificate(false, false, "UTF-8", Some(&json), &bytes[1..], None));
}

#[test]
fn a_minted_certificate_records_its_check() {
    let recorded = |edition: &str, chosen, encoding: &str| {
        let (_, json) = mint("p", CLEAN.as_bytes(), edition, chosen, encoding, NOW).unwrap();
        load_sidecar(Some(&json)).unwrap().verdict
    };
    let said = |edition: &str, how: &str, encoding: &str| Verdict {
        checked_at: NOW.to_string(),
        edition: edition.to_string(),
        how: how.to_string(),
        encoding: encoding.to_string(),
        errors: Some(0),
        warnings: None,
        fyi: None,
    };
    assert_eq!(recorded("4.2", None, "UTF-8"), said("4.2", "forced", "UTF-8"));
    assert_eq!(recorded("4.1", Some(Chosen::Exact), "UTF-8"), said("4.1", "exact", "UTF-8"));
    assert_eq!(recorded("4.0.4", Some(Chosen::Guessed), "UTF-8"), said("4.0.4", "guessed", "UTF-8"));
    assert_eq!(
        recorded("4.1.1", Some(Chosen::Fallback), "windows-1252"),
        said("4.1.1", "fallback", "windows-1252")
    );
}

#[test]
fn bytes_that_cannot_be_indexed_are_not_certified() {
    let e = mint("p", b"\xff\xfe", "4.1", None, "UTF-8", NOW).unwrap_err();
    assert!(e.starts_with("certify_ags: indexing 'p': "), "{e}");
}

#[test]
fn clean_text_is_certified_in_its_row() {
    let t = certify_ags_text(CLEAN, None, NOW).unwrap();
    assert_eq!(
        names(&t),
        vec!["certified", "groups", "errors", "warnings", "fyi", "dict_version", "cert", "message"]
    );
    let row = &t.rows[0];
    assert_eq!(row[7], s("certified 4 group(s) (cert JSON in the `cert` column)"));
    assert_eq!(row[0], Cell::Bool(true));
    assert_eq!(row[1], Cell::Int(4));
    assert_eq!(row[2], Cell::Int(0));
    assert_eq!(row[5], s("4.1"));
    match &row[6] {
        Cell::Str(json) => {
            assert!(clean_verdict_certified(Some(json.as_bytes()), CLEAN.as_bytes(), None))
        },
        other => panic!("{other:?}"),
    }
}

#[test]
fn text_with_errors_is_not_certified() {
    let t = certify_ags_text("\"GROUP\",\"PROJ\"\r\n\"HEADING\",\"PROJ_ID\"\r\n", None, NOW).unwrap();
    let row = &t.rows[0];
    assert_eq!(row[0], Cell::Bool(false));
    assert_eq!(row[1], Cell::Int(0));
    assert_eq!(row[5], s("4.1.1"));
    assert_eq!(row[6], Cell::Null);
    match (&row[2], &row[7]) {
        (Cell::Int(n), Cell::Str(m)) => {
            assert!(*n > 0);
            assert_eq!(
                m,
                &format!("not certified: {n} error finding(s) — run validate_ags_text(...) and fix them first")
            );
        },
        other => panic!("{other:?}"),
    }
}

#[test]
fn text_is_checked_against_the_forced_edition() {
    let t = certify_ags_text(CLEAN, Some(DictVersion::V4_2), NOW).unwrap();
    assert_eq!(t.rows[0][5], s("4.2"));
}

#[test]
fn text_that_is_no_ags4_is_an_error() {
    let e = certify_ags_text("hello", None, NOW).unwrap_err();
    assert!(e.starts_with("certify_ags_text: input did not parse as AGS4 ("), "{e}");
    let ags3 = CLEAN.replace("\"4.1\"", "\"3.1\"");
    let e = certify_ags_text(&ags3, None, NOW).unwrap_err();
    assert!(e.starts_with("certify_ags_text: AGS edition"), "{e}");
}

#[test]
fn the_row_of_text_follows_its_findings() {
    let row = text_row(&vec![finding(Severity::Error)], "4.2", &None);
    assert_eq!(row[0], Cell::Bool(false));
    let row = text_row(&Vec::new(), "4.2", &Some((2, "{}".to_string())));
    assert_eq!(row[0], Cell::Bool(true));
    assert_eq!(row[6], s("{}"));
    let refused = certify_checked(CLEAN, &vec![finding(Severity::Error)], "4.2", None, NOW).unwrap();
    assert_eq!(refused.rows[0][0], Cell::Bool(false));
}
