use laterite_ags4::table::{
    named_str, next_chunk, option_cell, param_str, storable, text_or_null, Cell, RowsState,
};

#[test]
fn a_scan_hands_out_every_row_once() {
    for total in [0usize, 1, 5, 6, 7, 20] {
        for cap in [1usize, 2, 3, 7, 2048] {
            let rows: Vec<Vec<Cell>> = (0..total).map(|i| vec![Cell::Int(i as i64)]).collect();
            let mut state = RowsState::new(1, rows);
            let mut seen: Vec<Cell> = Vec::new();
            loop {
                let (start, n) = state.scan(cap);
                if n == 0 {
                    break;
                }
                assert!(n <= cap);
                for i in 0..n {
                    seen.push(state.rows[start + i][0].clone());
                }
            }
            let all: Vec<Cell> = (0..total).map(|i| Cell::Int(i as i64)).collect();
            assert_eq!(seen, all);
        }
    }
}

#[test]
fn the_next_chunk_is_what_is_left_up_to_the_cap() {
    assert_eq!(next_chunk(10, 0, 4), 4);
    assert_eq!(next_chunk(10, 8, 4), 2);
    assert_eq!(next_chunk(10, 10, 4), 0);
    assert_eq!(next_chunk(10, 11, 4), 0);
    assert_eq!(next_chunk(10, 0, 0), 0);
}

#[test]
fn positional_parameters_are_text() {
    assert_eq!(param_str(0, Some(Some("x".to_string()))), Ok("x".to_string()));
    assert_eq!(param_str(1, None), Err("missing positional parameter 1".to_string()));
    assert_eq!(
        param_str(12, Some(None)),
        Err("positional parameter 12 is not a string".to_string())
    );
}

#[test]
fn blank_named_parameters_are_absent() {
    assert_eq!(named_str(None), None);
    assert_eq!(named_str(Some("  ".to_string())), None);
    assert_eq!(named_str(Some(" a ".to_string())), Some(" a ".to_string()));
}

#[test]
fn empty_text_is_null_where_it_is_asked_for() {
    assert_eq!(text_or_null(""), Cell::Null);
    assert_eq!(text_or_null("m"), Cell::Str("m".to_string()));
    assert_eq!(option_cell(&None), Cell::Null);
    assert_eq!(option_cell(&Some(String::new())), Cell::Str(String::new()));
}

#[test]
fn a_nul_is_not_storable() {
    assert!(storable("abc"));
    assert!(storable(""));
    assert!(!storable("a\0b"));
}
