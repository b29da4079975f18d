use laterite_ags4::certify::certify_ags_text;
use laterite_ags4::checkable::{is_checkable, is_infinite, type_count};
use laterite_ags4::table::Cell;

const NOW: &str = "2026-01-01T00:00:00Z";

fn column(code: &str, values: &[&str]) -> (String, Vec<String>) {
    (code.to_string(), values.iter().map(|v| v.to_string()).collect())
}

/// Whether the rules can be run on one value under a TYPE code.
fn bears(code: &str, value: &str) -> bool {
    is_checkable(&vec![column(code, &["", value])])
}

/// PROJ with an identifier and a remark, under the given TYPE codes.
fn proj(types: [&str; 2], values: [&str; 2]) -> String {
    format!(
        "\"GROUP\",\"PROJ\"\r\n\"HEADING\",\"PROJ_ID\",\"PROJ_NAME\"\r\n\"UNIT\",\"\",\"\"\r\n\
         \"TYPE\",\"{}\",\"{}\"\r\n\"DATA\",\"{}\",\"{}\"\r\n",
        types[0], types[1], values[0], values[1]
    )
}

/// A text that the rules can be run on is answered with the one row that refuses it.
fn assert_checked(text: &str) {
    let t = certify_ags_text(text, None, NOW).unwrap_or_else(|e| panic!("{text:?}: {e}"));
    assert_eq!(t.rows.len(), 1);
    assert_eq!(t.rows[0].len(), 8);
    assert_eq!(t.rows[0][0], Cell::Bool(false), "{text:?}");
    assert_eq!(t.rows[0][6], Cell::Null, "{text:?}");
}

fn assert_uncheckable(text: &str) {
    assert_eq!(
        certify_ags_text(text, None, NOW).unwrap_err(),
        "certify_ags_text: a TYPE code in the input has a count that the rules cannot check its values against",
        "{text:?}"
    );
}

#[test]
fn a_type_code_has_a_count() {
    assert_eq!(type_count("2SCI", "SCI"), Some(2));
    assert_eq!(type_count(" 007SF ", "SF"), Some(7));
    assert_eq!(type_count(&format!("{}SCI", usize::MAX), "SCI"), Some(usize::MAX));
    assert_eq!(type_count(&format!("{}0SCI", usize::MAX), "SCI"), None);
    assert_eq!(type_count("+2SCI", "SCI"), None);
    assert_eq!(type_count("SCI", "SCI"), None);
    assert_eq!(type_count("2sci", "SCI"), None);
    assert_eq!(type_count("TP0SF", "SF"), None);
    assert_eq!(type_count("2DP", "SCI"), None);
    assert_eq!(type_count("", "SF"), None);
}

#[test]
fn a_count_that_overflows_bears_no_value() {
    for less in 0..4 {
        assert!(!bears(&format!("{}SCI", usize::MAX - less), "1.5"));
        assert!(!bears(&format!(" 00{}SCI ", usize::MAX - less), " "));
        assert!(bears(&format!("{}SCI", usize::MAX - less), ""));
    }
    assert!(bears(&format!("{}SCI", usize::MAX - 4), "1.5"));
    assert!(bears(&format!("{}0SCI", usize::MAX), "1.5"));
    assert!(bears(&format!("{}SF", usize::MAX), "1.5"));
    assert!(bears("X", "18446744073709551615SCI"));
    assert!(is_checkable(&Vec::new()));
}

#[test]
fn no_figures_are_had_of_an_infinite_number() {
    let long = "9".repeat(309);
    for value in ["inf", " -Infinity ", "+INF", "1e400", "-1E400", long.as_str()] {
        assert!(!bears("0SF", value), "{value}");
        assert!(!bears("00SF", value), "{value}");
        assert!(bears("1SF", value), "{value}");
        assert!(bears("0DP", value), "{value}");
    }
    for value in ["info", "infill", "1.E9", "12.5", "NaN", "0", "1e", "TP0SF", &long[1..]] {
        assert!(bears("0SF", value), "{value}");
    }
    assert!(is_infinite(&Some("inf".to_string())));
    assert!(is_infinite(&Some("-inf".to_string())));
    assert!(!is_infinite(&Some("NaN".to_string())));
    assert!(!is_infinite(&None));
}

#[test]
fn the_column_decides_and_not_the_text_around_it() {
    assert_checked(&proj(["ID", "0SF"], ["P1", "info"]));
    assert_checked(&proj(["ID", "X"], ["TP0SF", "infill"]));
    assert_checked(&proj(["ID", "0SF"], ["inf", "1.E9"]));
    assert_checked(&proj(["0SF", "X"], ["12.5", "inf"]));
    assert_checked(&proj(["X", "X"], [&format!("{}SCI", usize::MAX), "1.5"]));
    assert_checked(&proj(["ID", &format!("{}SCI", usize::MAX)], ["P1", ""]));
}

#[test]
fn text_that_cannot_be_checked_is_an_error() {
    assert_uncheckable(&proj(["ID", &format!("{}SCI", usize::MAX)], ["P1", "1.5"]));
    assert_uncheckable(&proj(["ID", &format!(" {}SCI", usize::MAX - 3)], ["P1", "x"]));
    assert_uncheckable(&proj(["ID", "0SF"], ["P1", "inf"]));
    assert_uncheckable(&proj(["ID", "0SF"], ["P1", "1e400"]));
    // In any group, and in any row.
    let more = format!("{}\"DATA\",\"P2\",\"-inf\"\r\n", proj(["ID", "0SF"], ["P1", "1"]));
    assert_uncheckable(&more);
    let second = proj(["ID", "X"], ["P1", "x"])
        + "\"GROUP\",\"LOCA\"\r\n\"HEADING\",\"LOCA_ID\"\r\n\"TYPE\",\"0SF\"\r\n\"DATA\",\"inf\"\r\n";
    assert_uncheckable(&second);
}

#[test]
fn an_odd_count_is_checked_where_it_can_be() {
    for (code, value) in [
        (format!("{}SCI", usize::MAX - 4), "1.5"),
        (format!("{}0SCI", usize::MAX), "1.5"),
        (format!("{}SF", usize::MAX), "1.5"),
        (format!("{}DP", usize::MAX), "1.5"),
        ("0SF".to_string(), "12.5"),
        ("1SF".to_string(), "inf"),
        ("0SF".to_string(), "NaN"),
        ("0SF".to_string(), "1e-400"),
    ] {
        assert_checked(&proj(["ID", &code], ["P1", value]));
    }
}
