use std::sync::Arc;

use laterite_ags4::ags::ParsedAgs4;
use laterite_ags4::cache::{cap_from_env, get_or_try_insert, Cache, DEFAULT_CAP_BYTES};
use laterite_ags4::source::read_parsed;

fn parsed_stub() -> ParsedAgs4 {
    ParsedAgs4 { groups: Vec::new() }
}

/// A miss builds; an immediate second call for the same key is a hit (the build
/// does not run) and returns the same file.
#[test]
fn second_call_is_a_hit() {
    let mut cache = Cache::new(DEFAULT_CAP_BYTES);
    let mut built = 0;
    let a = get_or_try_insert(&mut cache, "/x/hit.ags", 10, "UTF-8", || {
        built += 1;
        Ok(parsed_stub())
    })
    .unwrap();
    let b = get_or_try_insert(&mut cache, "/x/hit.ags", 10, "UTF-8", || {
        built += 1;
        Ok(parsed_stub())
    })
    .unwrap();
    assert_eq!(built, 1, "second call must not rebuild");
    assert!(Arc::ptr_eq(&a, &b), "hit returns the same Arc");
}

/// A different size for the same path is a different key.
#[test]
fn size_change_busts() {
    let mut cache = Cache::new(DEFAULT_CAP_BYTES);
    let mut built = 0;
    let _ = get_or_try_insert(&mut cache, "/x/grow.ags", 10, "UTF-8", || {
        built += 1;
        Ok(parsed_stub())
    });
    let _ = get_or_try_insert(&mut cache, "/x/grow.ags", 20, "UTF-8", || {
        built += 1;
        Ok(parsed_stub())
    });
    assert_eq!(built, 2, "a size change must re-build");
}

/// A build error propagates and caches nothing (the next call retries).
#[test]
fn error_is_not_cached() {
    let mut cache = Cache::new(DEFAULT_CAP_BYTES);
    let mut built = 0;
    let first = get_or_try_insert(&mut cache, "/x/bad.ags", 7, "UTF-8", || {
        built += 1;
        Err("boom".to_string())
    });
    assert!(first.is_err());
    let _ = get_or_try_insert(&mut cache, "/x/bad.ags", 7, "UTF-8", || {
        built += 1;
        Ok(parsed_stub())
    });
    assert_eq!(built, 2, "a failed build must not be cached");
}

#[test]
fn another_encoding_is_another_file() {
    let mut cache = Cache::new(100);
    let p = Arc::new(parsed_stub());
    cache.publish("f", 1, "UTF-8", &p);
    assert!(cache.lookup("f", 1, "windows-1252").is_none());
    assert!(cache.lookup("f", 1, "UTF-8").is_some());
}

#[test]
fn a_cap_of_zero_keeps_nothing() {
    let mut cache = Cache::new(0);
    assert!(!cache.is_enabled());
    let mut built = 0;
    for _ in 0..3 {
        let _ = get_or_try_insert(&mut cache, "f", 1, "UTF-8", || {
            built += 1;
            Ok(parsed_stub())
        });
    }
    assert_eq!(built, 3);
}

#[test]
fn the_least_recently_used_leaves_first() {
    let mut cache = Cache::new(30);
    let p = Arc::new(parsed_stub());
    cache.publish("a", 10, "UTF-8", &p);
    cache.publish("b", 10, "UTF-8", &p);
    cache.publish("c", 10, "UTF-8", &p);
    // `a` is used again, so `b` is now the oldest.
    assert!(cache.lookup("a", 10, "UTF-8").is_some());
    cache.publish("d", 10, "UTF-8", &p);
    assert!(cache.lookup("b", 10, "UTF-8").is_none());
    assert!(cache.lookup("a", 10, "UTF-8").is_some());
    assert!(cache.lookup("c", 10, "UTF-8").is_some());
    assert!(cache.lookup("d", 10, "UTF-8").is_some());
}

#[test]
fn a_file_over_the_cap_is_served_and_leaves_next() {
    let mut cache = Cache::new(30);
    let p = Arc::new(parsed_stub());
    cache.publish("a", 10, "UTF-8", &p);
    cache.publish("big", 100, "UTF-8", &p);
    assert!(cache.lookup("a", 10, "UTF-8").is_none());
    assert!(cache.lookup("big", 100, "UTF-8").is_some());
    cache.publish("b", 10, "UTF-8", &p);
    assert!(cache.lookup("big", 100, "UTF-8").is_none());
    assert!(cache.lookup("b", 10, "UTF-8").is_some());
}

#[test]
fn a_second_writer_of_a_key_wins() {
    let mut cache = Cache::new(25);
    let p = Arc::new(parsed_stub());
    let q = Arc::new(parsed_stub());
    cache.publish("a", 10, "UTF-8", &p);
    cache.publish("b", 10, "UTF-8", &p);
    cache.publish("a", 10, "UTF-8", &q);
    // The cost of `a` is charged once, so `b` is still there.
    assert!(cache.lookup("b", 10, "UTF-8").is_some());
    assert!(Arc::ptr_eq(&cache.lookup("a", 10, "UTF-8").unwrap(), &q));
}

#[test]
fn the_cap_comes_from_its_setting() {
    assert_eq!(cap_from_env(None), 256 * 1024 * 1024);
    assert_eq!(cap_from_env(Some(" 1024 ")), 1024);
    assert_eq!(cap_from_env(Some("+7")), 7);
    assert_eq!(cap_from_env(Some("0")), 0);
    assert_eq!(cap_from_env(Some("-1")), DEFAULT_CAP_BYTES);
    assert_eq!(cap_from_env(Some("")), DEFAULT_CAP_BYTES);
    assert_eq!(cap_from_env(Some("1k")), DEFAULT_CAP_BYTES);
    assert_eq!(cap_from_env(Some("99999999999999999999999")), DEFAULT_CAP_BYTES);
}

#[test]
fn a_kept_file_is_not_read_again() {
    let text = b"\"GROUP\",\"PROJ\"\r\n\"HEADING\",\"PROJ_ID\"\r\n\"DATA\",\"P1\"\r\n";
    let mut cache = Cache::new(1000);
    let mut reads = 0;
    for _ in 0..2 {
        let file = read_parsed(&mut cache, "p.ags", text.len() as u64, "UTF-8", || {
            reads += 1;
            Ok(text.to_vec())
        })
        .unwrap();
        assert_eq!(file.order(), vec!["PROJ".to_string()]);
    }
    assert_eq!(reads, 1);
    let failed = read_parsed(&mut cache, "q.ags", 3, "UTF-8", || Err("no".to_string()));
    assert_eq!(failed.unwrap_err(), "no");
    let broken = read_parsed(&mut cache, "q.ags", 3, "UTF-8", || Ok(b"\"DATA\",\"1\"".to_vec()));
    let message = broken.unwrap_err();
    assert!(message.starts_with("read_ags: 'q.ags' did not parse as AGS4 ("));
    assert!(message.ends_with("); the file may be invalid — validate/repair it first"));
}
