use laterite_ags4::source::{
    cannot_open, check_path, check_size, max_file_bytes, named_encoding, parse_source, read_count,
    resolve_encoding, Slurp, DEFAULT_MAX_FILE_BYTES,
};

#[test]
fn the_limit_comes_from_its_setting() {
    assert_eq!(max_file_bytes(None), 4 * 1024 * 1024 * 1024);
    assert_eq!(max_file_bytes(Some(" 12 ")), 12);
    assert_eq!(max_file_bytes(Some("18446744073709551615")), u64::MAX);
    assert_eq!(max_file_bytes(Some("18446744073709551616")), DEFAULT_MAX_FILE_BYTES);
    assert_eq!(max_file_bytes(Some("lots")), DEFAULT_MAX_FILE_BYTES);
}

#[test]
fn a_reported_size_is_checked() {
    assert_eq!(check_size("p", 0, 10), Ok(0));
    assert_eq!(check_size("p", 10, 10), Ok(10));
    assert_eq!(
        check_size("p", 11, 10),
        Err("read_ags: 'p' reports 11 bytes, over the 10-byte limit (raise LATERITE_AGS_MAX_FILE_BYTES if this is a genuine file)".to_string())
    );
    assert_eq!(
        check_size("p", -1, 10),
        Err("read_ags: cannot determine the size of 'p' (filesystem returned -1)".to_string())
    );
}

#[test]
fn a_path_with_a_nul_is_refused() {
    assert_eq!(check_path("a/b.ags"), Ok(()));
    assert_eq!(
        check_path("a\0b"),
        Err("read_ags: path 'a\0b' contains an interior NUL byte".to_string())
    );
    assert_eq!(cannot_open("x"), "read_ags: cannot open 'x'");
}

#[test]
fn a_negative_count_is_a_read_error() {
    assert_eq!(read_count(0), Ok(0));
    assert_eq!(read_count(1024), Ok(1024));
    assert_eq!(read_count(-5), Err("read_ags: read error".to_string()));
}

fn slurp(chunks: &[&[u8]], size: u64, max: u64) -> Result<Vec<u8>, String> {
    let mut s = Slurp::new(size, max);
    for c in chunks {
        if !s.feed("f", c)? {
            break;
        }
    }
    s.finish("f", size)
}

#[test]
fn a_file_is_read_whole() {
    assert_eq!(slurp(&[b"abc", b"de", b""], 5, 10), Ok(b"abcde".to_vec()));
    // However it is cut, it is the same file.
    assert_eq!(slurp(&[b"a", b"b", b"c", b"d", b"e", b""], 5, 10), Ok(b"abcde".to_vec()));
    // More than was reported is taken, up to the limit.
    assert_eq!(slurp(&[b"abcde", b""], 2, 5), Ok(b"abcde".to_vec()));
    assert_eq!(slurp(&[b""], 0, 0), Ok(Vec::new()));
}

#[test]
fn a_file_over_the_limit_is_refused() {
    assert_eq!(
        slurp(&[b"abc", b"def", b""], 6, 5),
        Err("read_ags: 'f' exceeds the 5-byte limit while reading (raise LATERITE_AGS_MAX_FILE_BYTES if this is a genuine file)".to_string())
    );
}

#[test]
fn a_short_read_is_refused() {
    assert_eq!(
        slurp(&[b"ab", b""], 4, 10),
        Err("read_ags: short read on 'f' (got 2 of 4 bytes); the file may have changed underfoot — retry".to_string())
    );
}

#[test]
fn encodings_are_named_by_their_labels() {
    assert_eq!(resolve_encoding(None), Ok("UTF-8".to_string()));
    assert_eq!(resolve_encoding(Some("utf8")), Ok("UTF-8".to_string()));
    assert_eq!(resolve_encoding(Some(" Latin1 ")), Ok("windows-1252".to_string()));
    assert_eq!(
        resolve_encoding(Some("klingon")),
        Err("unknown encoding 'klingon'; expected a WHATWG label such as 'utf-8' or 'windows-1252'".to_string())
    );
    assert_eq!(named_encoding("x", Some("y".to_string())), Ok("y".to_string()));
}

#[test]
fn bytes_are_decoded_before_they_are_parsed() {
    // 0xb0 is a degree sign in windows-1252, and no UTF-8.
    let bytes = b"\"GROUP\",\"PROJ\"\r\n\"HEADING\",\"PROJ_ID\"\r\n\"DATA\",\"5\xb0\"\r\n";
    let file = parse_source("p", bytes, "windows-1252").unwrap();
    assert_eq!(file.groups[0].rows, vec![vec!["5°".to_string()]]);
    assert!(parse_source("p", bytes, "UTF-8").is_err());
    assert_eq!(
        parse_source("p", bytes, "klingon"),
        Err("read_ags: 'p' did not parse as AGS4 (the encoding 'klingon' is not known); the file may be invalid — validate/repair it first".to_string())
    );
}

#[test]
fn a_file_parses_to_well_formed_groups() {
    let text = "\"GROUP\",\"LOCA\"\r\n\"HEADING\",\"LOCA_ID\",\"LOCA_GL\"\r\n\"UNIT\",\"\",\"m\"\r\n\"TYPE\",\"ID\"\r\n\"DATA\",\" BH01 \"\r\n";
    let file = parse_source("p", text.as_bytes(), "UTF-8").unwrap();
    let g = &file.groups[0];
    assert_eq!(g.code, "LOCA");
    assert_eq!(g.headings, vec!["LOCA_ID".to_string(), "LOCA_GL".to_string()]);
    assert_eq!(g.units, vec![String::new(), "m".to_string()]);
    assert_eq!(g.types, vec!["ID".to_string(), "X".to_string()]);
    assert_eq!(g.rows, vec![vec!["BH01".to_string(), String::new()]]);
    // No groups at all is an empty file, a repeated heading an error.
    assert_eq!(parse_source("p", b"", "UTF-8").unwrap().groups.len(), 0);
    assert!(parse_source("p", b"\"GROUP\",\"A\"\r\n\"HEADING\",\"A_X\",\"A_X\"\r\n", "UTF-8").is_err());
}

#[test]
fn there_is_room_to_decode_a_sixth_of_what_a_buffer_holds() {
    let most = (isize::MAX as usize - 128) / 6;
    assert!(laterite_ags4::source::can_decode(0));
    assert!(laterite_ags4::source::can_decode(most));
    assert!(!laterite_ags4::source::can_decode(most + 1));
}
