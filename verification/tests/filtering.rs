use cargo_onefile::criteria::{ConfigError, FileMeta, FilterCriteria};
use cargo_onefile::filter::filter_path;

fn bytes(s: &str) -> Vec<u8> {
    s.as_bytes().to_vec()
}

fn rs_only() -> Vec<Vec<u8>> {
    vec![bytes("rs")]
}

fn plain_criteria(extensions: Vec<Vec<u8>>) -> FilterCriteria {
    FilterCriteria::new(extensions, None, None, None, None, Vec::new(), None, true, false)
        .unwrap()
}

#[test]
fn size_bounds_min_over_max_fail_construction() {
    // min = 100, max = 50: refused before any file system access
    let r = FilterCriteria::new(
        rs_only(),
        Some(50),
        Some(100),
        None,
        None,
        Vec::new(),
        None,
        true,
        false,
    );
    assert_eq!(r.err().unwrap(), ConfigError::SizeBoundsInconsistent);
}

#[test]
fn time_bounds_min_over_max_fail_construction() {
    let r = FilterCriteria::new(
        rs_only(),
        None,
        None,
        Some(2000),
        Some(1000),
        Vec::new(),
        None,
        true,
        false,
    );
    assert_eq!(r.err().unwrap(), ConfigError::TimeBoundsInconsistent);
}

#[test]
fn consistent_bounds_construct() {
    let r = FilterCriteria::new(
        rs_only(),
        Some(100),
        Some(50),
        Some(1000),
        Some(2000),
        Vec::new(),
        Some(3),
        false,
        true,
    );
    let c = r.unwrap();
    assert_eq!(c.smaller_than, Some(100));
    assert_eq!(c.larger_than, Some(50));
    assert_eq!(c.newer_than, Some(1000));
    assert_eq!(c.older_than, Some(2000));
    assert_eq!(c.depth, Some(3));
    assert!(!c.skip_gitignore);
    assert!(c.include_lock);
}

#[test]
fn filter_is_deterministic_on_identical_input() {
    let c = plain_criteria(rs_only());
    let p = bytes("src/lib.rs");
    let m = Some(FileMeta { size: 10, modified: Some(5) });
    let first = filter_path(&c, &p, m);
    let second = filter_path(&c, &p, m);
    assert_eq!(first, second);
    assert!(first);
}

#[test]
fn lock_file_rejected_whatever_the_extension_list_says() {
    // even with "lock" allowed, Cargo.lock is rejected while include_lock is off
    let c = plain_criteria(vec![bytes("lock")]);
    assert!(!filter_path(&c, &bytes("Cargo.lock"), None));
    assert!(!filter_path(&c, &bytes("deep/dir/Cargo.lock"), None));
    assert!(filter_path(&c, &bytes("other.lock"), None));
}

#[test]
fn lock_file_kept_when_included() {
    let c = FilterCriteria::new(
        vec![bytes("lock")],
        None,
        None,
        None,
        None,
        Vec::new(),
        None,
        true,
        true,
    )
    .unwrap();
    assert!(filter_path(&c, &bytes("Cargo.lock"), None));
}

#[test]
fn extension_must_match_exactly() {
    let c = plain_criteria(rs_only());
    assert!(filter_path(&c, &bytes("a.rs"), None));
    assert!(!filter_path(&c, &bytes("a.RS"), None));
    assert!(!filter_path(&c, &bytes("a.rss"), None));
    assert!(!filter_path(&c, &bytes("ars"), None));
    // a leading dot alone does not make an extension
    let g = plain_criteria(vec![bytes("gitignore")]);
    assert!(!filter_path(&g, &bytes(".gitignore"), None));
}

#[test]
fn size_bound_larger_than_1000() {
    // excludes a 500-byte file and includes a 1500-byte one
    let c = FilterCriteria::new(
        rs_only(),
        None,
        Some(1000),
        None,
        None,
        Vec::new(),
        None,
        true,
        false,
    )
    .unwrap();
    let small = Some(FileMeta { size: 500, modified: None });
    let big = Some(FileMeta { size: 1500, modified: None });
    assert!(!filter_path(&c, &bytes("a.rs"), small));
    assert!(filter_path(&c, &bytes("a.rs"), big));
}

#[test]
fn metadata_fetch_failure_rejects_when_bounds_configured() {
    let c = FilterCriteria::new(
        rs_only(),
        Some(10_000),
        None,
        None,
        None,
        Vec::new(),
        None,
        true,
        false,
    )
    .unwrap();
    assert!(!filter_path(&c, &bytes("a.rs"), None));
    // without bounds, no metadata is needed
    let c2 = plain_criteria(rs_only());
    assert!(filter_path(&c2, &bytes("a.rs"), None));
}

#[test]
fn time_bounds_use_the_modification_time() {
    let c = FilterCriteria::new(
        rs_only(),
        None,
        None,
        Some(1_000),
        Some(2_000),
        Vec::new(),
        None,
        true,
        false,
    )
    .unwrap();
    let inside = Some(FileMeta { size: 1, modified: Some(1_500) });
    let too_old = Some(FileMeta { size: 1, modified: Some(500) });
    let too_new = Some(FileMeta { size: 1, modified: Some(2_500) });
    let unknown = Some(FileMeta { size: 1, modified: None });
    assert!(filter_path(&c, &bytes("a.rs"), inside));
    assert!(!filter_path(&c, &bytes("a.rs"), too_old));
    assert!(!filter_path(&c, &bytes("a.rs"), too_new));
    assert!(!filter_path(&c, &bytes("a.rs"), unknown));
}
