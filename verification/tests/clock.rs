use laterite_ags4::clock::{date_of, rfc3339, END_OF_TIME};

#[test]
fn times_are_written_in_rfc_3339() {
    assert_eq!(rfc3339(0), "1970-01-01T00:00:00Z");
    assert_eq!(rfc3339(951_827_696), "2000-02-29T12:34:56Z");
    assert_eq!(rfc3339(1_709_210_096), "2024-02-29T12:34:56Z");
    assert_eq!(rfc3339(4_102_444_799), "2099-12-31T23:59:59Z");
    assert_eq!(rfc3339(END_OF_TIME - 1), "9999-12-31T23:59:59Z");
}

#[test]
fn every_day_follows_the_one_before() {
    let mut last = date_of(0);
    assert_eq!(last, (1970, 1, 1));
    for day in 1..60_000u64 {
        let (y, m, d) = date_of(day);
        let next_day = (y, m, d) == (last.0, last.1, last.2 + 1);
        let next_month = (y, m, d) == (last.0, last.1 + 1, 1);
        let next_year = (y, m, d) == (last.0 + 1, 1, 1) && (last.1, last.2) == (12, 31);
        assert!(next_day || next_month || next_year);
        last = (y, m, d);
    }
    assert_eq!(last, date_of(59_999));
}
