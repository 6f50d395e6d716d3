use cargo_onefile::collect::total_line_count;
use cargo_onefile::output::generate_output;
use cargo_onefile::sort::LoadedFile;
use cargo_onefile::toc::generate_table_of_contents;

fn bytes(s: &str) -> Vec<u8> {
    s.as_bytes().to_vec()
}

fn numbered_lines(n: usize) -> Vec<u8> {
    let mut s = String::new();
    let mut i = 0;
    while i < n {
        s.push_str(&format!("line {}\n", i + 1));
        i += 1;
    }
    s.into_bytes()
}

fn two_files() -> Vec<LoadedFile> {
    vec![
        LoadedFile { path: bytes("a.rs"), content: numbered_lines(10) },
        LoadedFile { path: bytes("sub/b.rs"), content: numbered_lines(5) },
    ]
}

fn lines_of(out: &[u8]) -> Vec<String> {
    String::from_utf8(out.to_vec())
        .unwrap()
        .split('\n')
        .map(|s| s.to_string())
        .collect()
}

#[test]
fn toc_numbers_grow_by_content_lines_plus_two() {
    // a.rs has 10 content lines, sub/b.rs has 5: the two entries differ by 12
    let files = two_files();
    let out = generate_output(None, None, true, &bytes("//"), &files);
    let lines = lines_of(&out);
    assert_eq!(lines[2], "// Ln6 : a.rs");
    assert_eq!(lines[3], "// Ln18 : sub/b.rs");
}

#[test]
fn toc_reported_numbers_equal_actual_separator_lines() {
    let files = two_files();
    let out = generate_output(None, None, true, &bytes("//"), &files);
    let lines = lines_of(&out);
    // 1-based line 6 and line 18 hold the separator lines the table promises
    assert_eq!(lines[6 - 1], "// a.rs");
    assert_eq!(lines[18 - 1], "// sub/b.rs");
    assert_eq!(lines[0], "// Table of Contents");
    assert_eq!(lines[1], "// ==================");
    assert_eq!(lines[4], "// ==================");
}

#[test]
fn toc_numbers_account_for_header_and_metadata_lines() {
    let files = two_files();
    let head = bytes("H1\nH2\n");
    let meta = bytes("M\n");
    let out = generate_output(Some(&head), Some(&meta), true, &bytes("//"), &files);
    let lines = lines_of(&out);
    // three preamble newlines shift every number by three
    assert_eq!(lines[3 + 2], "// Ln9 : a.rs");
    assert_eq!(lines[9 - 1], "// a.rs");
    assert_eq!(lines[21 - 1], "// sub/b.rs");
}

#[test]
fn toc_lists_every_file_once_in_block_order() {
    let files = two_files();
    let toc = generate_table_of_contents(&files, 0);
    let text = String::from_utf8(toc).unwrap();
    assert_eq!(
        text,
        "// Table of Contents\n// ==================\n// Ln6 : a.rs\n// Ln18 : sub/b.rs\n// ==================\n"
    );
}

#[test]
fn output_without_extras_is_just_the_blocks() {
    let files = vec![LoadedFile { path: bytes("x.txt"), content: bytes("body") }];
    let out = generate_output(None, None, false, &bytes("--"), &files);
    assert_eq!(out, bytes("-- x.txt\nbody\n"));
}

#[test]
fn header_bytes_come_first_verbatim() {
    let files = vec![LoadedFile { path: bytes("x.txt"), content: bytes("b\n") }];
    let head = bytes("HEADER\n");
    let meta = bytes("// meta\n");
    let out = generate_output(Some(&head), Some(&meta), false, &bytes("//"), &files);
    assert_eq!(out, bytes("HEADER\n// meta\n// x.txt\nb\n\n"));
}

#[test]
fn empty_file_list_renders_nothing() {
    let files: Vec<LoadedFile> = Vec::new();
    let out = generate_output(None, None, false, &bytes("//"), &files);
    assert!(out.is_empty());
}

#[test]
fn total_line_count_counts_unterminated_final_lines() {
    let files = vec![
        LoadedFile { path: bytes("a"), content: numbered_lines(10) },
        LoadedFile { path: bytes("b"), content: bytes("x\ny") },
        LoadedFile { path: bytes("c"), content: Vec::new() },
    ];
    assert_eq!(total_line_count(&files), Some(12));
}
