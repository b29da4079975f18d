use laterite_ags4::cert::{load_sidecar, slice_plan};
use laterite_ags4::certify::mint;
use laterite_ags4::read_ags::{read_ags_text, sliced_table};
use laterite_ags4::table::Table;

/// A group by a certificate that was minted for the text, where it leads to it.
fn fast(text: &str, group: &str) -> Option<Table> {
    let bytes = text.as_bytes();
    let (_, json) = mint("p", bytes, "4.1", None, "UTF-8", "2026-01-01T00:00:00Z").unwrap();
    let sidecar = load_sidecar(Some(&json)).unwrap();
    let size = bytes.len() as u64;
    let (start, end) = slice_plan(&sidecar, size, group)?;
    sliced_table(&sidecar, size, &bytes[start as usize..end as usize], group)
}

fn slow(text: &str, group: &str) -> Table {
    read_ags_text(text, group).unwrap()
}

const PROJ: &str = "\"GROUP\",\"PROJ\"\r\n\"HEADING\",\"PROJ_ID\"\r\n\"DATA\",\"P1\"\r\n";
const LOCA: &str = "\"GROUP\",\"LOCA\"\r\n\"HEADING\",\"LOCA_ID\",\"LOCA_REM\"\r\n";

#[test]
fn a_new_certificate_reads_as_the_file() {
    let sections = [
        "\"DATA\",\"BH1\",\"plain\"\r\n\r\n",
        "\"DATA\",\"BH1\",\"lone feed\"\n\n",
        "\"DATA\",\"BH1\",\"lone return\"\r",
        "\"DATA\",\"BH1\",\"two\r\nlines\"\r\n\"DATA\",\"BH2\"\r\n",
        "\"DATA\",\"BH1\",\"say \"\"hi\"\"\"\r\n",
        "\"DATA\",\"BH1\",\"never closed\r\n",
        "\"DATA\",\"BH1\",\"\r\n",
        "\"DATA\",\"BH1\",\"doubled\"\"\r\n",
        "\"DATA\",\"BH1\" junk,unquoted \r\n",
        "DATA,BH1,unquoted\r\n",
        "\"REM\",\"no row\"\r\n\"DATA\r\n\r\n",
        "\"UNIT\",\"\",\"\"\r\n\"TYPE\",\"ID\",\"X\"\r\n\"DATA\",\"BH1\",\"x\"\r\n   \r\n",
    ];
    for section in sections {
        let text = format!("\u{feff}{PROJ}{LOCA}{section}\"GROUP\",\"SAMP\"\r\n\"HEADING\",\"LOCA_ID\"\r\n");
        for group in ["PROJ", "LOCA", "SAMP"] {
            assert_eq!(fast(&text, group), Some(slow(&text, group)), "{group} in {text:?}");
        }
        let last = format!("{PROJ}{LOCA}{section}");
        assert_eq!(fast(&last, "LOCA"), Some(slow(&last, "LOCA")), "{last:?}");
    }
}

#[test]
fn an_open_tag_is_read_in_the_file_alone() {
    for end in ["\r\n", "\n", "\r"] {
        let text = format!("{LOCA}\"DATA\",\"BH1\"{end}\"DATA{end}{PROJ}");
        assert_eq!(slow(&text, "LOCA").rows.len(), 2);
        assert_eq!(fast(&text, "LOCA").unwrap().rows.len(), 1);
    }
    // At the end of the file the two agree again.
    let text = format!("{PROJ}{LOCA}\"DATA\",\"BH1\"\r\n\"DATA\r\n");
    assert_eq!(fast(&text, "LOCA"), Some(slow(&text, "LOCA")));
}

#[test]
fn a_code_is_the_same_but_for_whitespace() {
    let text = format!(
        "\"GROUP\",\" LOCA\"\r\n\"HEADING\",\"LOCA_ID\"\r\n\"DATA\",\"BH0\"\r\n{LOCA}\"DATA\",\"BH1\"\r\n"
    );
    assert_ne!(fast(&text, "LOCA"), Some(slow(&text, "LOCA")));
}

#[test]
fn a_declared_group_reads_as_in_the_file() {
    let custom = "\"GROUP\",\"XXXX\"\r\n\"HEADING\",\"XXXX_ID\"\r\n\"DATA\",\"1\"\r\n";
    let dict = "\"GROUP\",\"DICT\"\r\n\"HEADING\",\"DICT_TYPE\",\"DICT_GRP\",\"DICT_HDNG\"\r\n";
    let declared = format!("{custom}{dict}\"DATA\",\"GROUP\",\"XXXX\",\"\"\r\n");
    assert_eq!(fast(&declared, "XXXX"), Some(slow(&declared, "XXXX")));
    let heading = format!("{custom}{dict}\"DATA\",\"HEADING\",\"XXXX\",\"XXXX_ID\"\r\n{PROJ}");
    assert_eq!(fast(&heading, "XXXX"), Some(slow(&heading, "XXXX")));
    // Whitespace around the name hides the declaration from the certificate, which
    // sends the reader to the whole file.
    let spaced = format!("{custom}{dict}\"DATA\",\"GROUP\",\" XXXX\",\"\"\r\n");
    assert_eq!(fast(&spaced, "XXXX"), None);
    assert_eq!(slow(&spaced, "XXXX").rows.len(), 1);
    let unnamed = format!("{custom}{dict}\"DATA\",\"GROUP\",\"YYYY\",\"\"\r\n");
    assert_eq!(fast(&unnamed, "XXXX"), None);
    assert!(read_ags_text(&unnamed, "XXXX").is_err());
    // A blank heading declares nothing, but the certificate takes it for one.
    let blank = format!("{custom}{dict}\"DATA\",\"HEADING\",\"XXXX\",\" \"\r\n");
    assert!(fast(&blank, "XXXX").is_some());
    assert!(read_ags_text(&blank, "XXXX").is_err());
}
