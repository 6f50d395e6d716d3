use cargo_onefile::collect::{CollectError, LoadResult, collect_sources, keep_loaded,
    reduce_dir_list};
use cargo_onefile::sort::{LoadedFile, sort_files, truncate_sorted};

fn bytes(s: &str) -> Vec<u8> {
    s.as_bytes().to_vec()
}

fn loaded(path: &str, content: &str) -> LoadResult {
    LoadResult { path: bytes(path), content: Some(bytes(content)) }
}

fn failed(path: &str) -> LoadResult {
    LoadResult { path: bytes(path), content: None }
}

#[test]
fn sort_orders_by_path_bytes() {
    let mut v = vec![
        LoadedFile { path: bytes("src/z.rs"), content: bytes("z") },
        LoadedFile { path: bytes("a.rs"), content: bytes("a") },
        LoadedFile { path: bytes("src/a.rs"), content: bytes("sa") },
    ];
    sort_files(&mut v);
    let paths: Vec<Vec<u8>> = v.iter().map(|f| f.path.clone()).collect();
    assert_eq!(paths, vec![bytes("a.rs"), bytes("src/a.rs"), bytes("src/z.rs")]);
}

#[test]
fn output_order_is_strictly_ascending_and_rerun_identical() {
    let make = |order: &[usize]| {
        let all = [
            loaded("b.rs", "two"),
            loaded("a.rs", "one"),
            loaded("c.rs", "three"),
        ];
        let results: Vec<LoadResult> = order
            .iter()
            .map(|&i| LoadResult {
                path: all[i].path.clone(),
                content: all[i].content.clone(),
            })
            .collect();
        collect_sources(results, None).unwrap()
    };
    // two runs over the same file set, arriving in different orders
    let first = make(&[0, 1, 2]);
    let second = make(&[2, 0, 1]);
    let fp: Vec<Vec<u8>> = first.iter().map(|f| f.path.clone()).collect();
    let sp: Vec<Vec<u8>> = second.iter().map(|f| f.path.clone()).collect();
    assert_eq!(fp, sp);
    for w in fp.windows(2) {
        assert!(w[0] < w[1]);
    }
}

#[test]
fn max_files_one_keeps_exactly_the_first_sorted_file() {
    let results = vec![loaded("b.rs", "two"), loaded("a.rs", "one")];
    let v = collect_sources(results, Some(1)).unwrap();
    assert_eq!(v.len(), 1);
    assert_eq!(v[0].path, bytes("a.rs"));
}

#[test]
fn truncation_applies_after_sorting() {
    let mut v = vec![
        LoadedFile { path: bytes("z.rs"), content: bytes("z") },
        LoadedFile { path: bytes("a.rs"), content: bytes("a") },
    ];
    sort_files(&mut v);
    truncate_sorted(&mut v, Some(1));
    assert_eq!(v.len(), 1);
    assert_eq!(v[0].path, bytes("a.rs"));
}

#[test]
fn failed_reads_are_dropped_not_fatal() {
    let results = vec![
        loaded("a.rs", "one"),
        failed("gone.rs"),
        loaded("b.rs", "two"),
    ];
    let v = keep_loaded(results);
    assert_eq!(v.len(), 2);
    assert_eq!(v[0].path, bytes("a.rs"));
    assert_eq!(v[1].path, bytes("b.rs"));
}

#[test]
fn no_loadable_file_is_an_error() {
    let results = vec![failed("a.rs"), failed("b.rs")];
    assert_eq!(collect_sources(results, None).err().unwrap(), CollectError::NoFiles);
    assert_eq!(
        collect_sources(Vec::new(), None).err().unwrap(),
        CollectError::NoFiles
    );
}

#[test]
fn reduce_dir_list_partitions_in_one_pass() {
    let paths = vec![bytes("a.rs"), bytes("dir1"), bytes("b.rs"), bytes("dir2")];
    let flags = vec![false, true, false, true];
    let (files, dirs) = reduce_dir_list(paths, &flags);
    assert_eq!(files, vec![bytes("a.rs"), bytes("b.rs")]);
    assert_eq!(dirs, vec![bytes("dir1"), bytes("dir2")]);
}

#[test]
fn reduce_dir_list_without_directories_keeps_everything() {
    let paths = vec![bytes("a.rs"), bytes("b.rs")];
    let flags = vec![false, false];
    let (files, dirs) = reduce_dir_list(paths, &flags);
    assert_eq!(files, vec![bytes("a.rs"), bytes("b.rs")]);
    assert!(dirs.is_empty());
}
