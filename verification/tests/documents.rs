use deptry_core::notebook::RawCell;
use deptry_core::pipeline::FileError;
use deptry_core::pipeline::get_imports_from_ipynb_file;
use deptry_core::pipeline::get_imports_from_ipynb_files;

fn v(s: &[u8]) -> Vec<u8> {
    s.to_vec()
}

#[test]
fn markdown_cells_contribute_no_lines() {
    let nb = v(
        b"{\"cells\": [
            {\"cell_type\": \"markdown\", \"source\": [\"# title\\n\", \"text\\n\"]},
            {\"cell_type\": \"code\", \"source\": [\"x = 1\\n\", \"import numpy\\n\"]}
        ]}",
    );
    let table = get_imports_from_ipynb_file(&v(b"nb.ipynb"), &nb).unwrap();
    let locs = table.get(&v(b"numpy")).unwrap();
    assert_eq!(locs[0].line, Some(2));
    assert_eq!(locs[0].file, v(b"nb.ipynb"));
}

#[test]
fn magic_line_keeps_line_numbers_aligned() {
    let nb = v(
        b"{\"cells\": [
            {\"cell_type\": \"code\", \"source\": [\"%matplotlib inline\\n\", \"import numpy\\n\"]}
        ]}",
    );
    let table = get_imports_from_ipynb_file(&v(b"nb.ipynb"), &nb).unwrap();
    let locs = table.get(&v(b"numpy")).unwrap();
    assert_eq!(locs[0].line, Some(2));
}

#[test]
fn shell_line_is_blanked_too() {
    let nb = v(
        b"{\"cells\": [
            {\"cell_type\": \"code\", \"source\": [\"!pip install x\\n\", \"import numpy\\n\"]}
        ]}",
    );
    let table = get_imports_from_ipynb_file(&v(b"nb.ipynb"), &nb).unwrap();
    assert_eq!(table.get(&v(b"numpy")).unwrap()[0].line, Some(2));
    assert!(table.get(&v(b"pip")).is_none());
}

#[test]
fn lines_count_across_code_cells() {
    let nb = v(
        b"{\"cells\": [
            {\"cell_type\": \"code\", \"source\": [\"a = 1\\n\"]},
            {\"cell_type\": \"markdown\", \"source\": [\"notes\\n\"]},
            {\"cell_type\": \"code\", \"source\": [\"import pandas\\n\"]}
        ]}",
    );
    let table = get_imports_from_ipynb_file(&v(b"nb.ipynb"), &nb).unwrap();
    assert_eq!(table.get(&v(b"pandas")).unwrap()[0].line, Some(2));
}

#[test]
fn invalid_json_is_an_invalid_document() {
    let r = get_imports_from_ipynb_file(&v(b"nb.ipynb"), &v(b"not json"));
    assert!(matches!(r, Err(FileError::InvalidDocument)));
}

#[test]
fn missing_cells_is_an_invalid_document() {
    let r = get_imports_from_ipynb_file(&v(b"nb.ipynb"), &v(b"{\"other\": 1}"));
    assert!(matches!(r, Err(FileError::InvalidDocument)));
}

#[test]
fn cells_not_an_array_is_an_invalid_document() {
    let r = get_imports_from_ipynb_file(&v(b"nb.ipynb"), &v(b"{\"cells\": 3}"));
    assert!(matches!(r, Err(FileError::InvalidDocument)));
}

#[test]
fn empty_cells_yield_no_imports() {
    let table = get_imports_from_ipynb_file(&v(b"nb.ipynb"), &v(b"{\"cells\": []}")).unwrap();
    assert_eq!(table.len(), 0);
}

#[test]
fn broken_code_cell_is_a_syntax_error() {
    let nb = v(b"{\"cells\": [{\"cell_type\": \"code\", \"source\": [\"def broken(:\\n\"]}]}");
    let r = get_imports_from_ipynb_file(&v(b"nb.ipynb"), &nb);
    assert!(matches!(r, Err(FileError::Syntax(_))));
}

#[test]
fn notebook_batch_collects_failures() {
    let good = v(b"{\"cells\": [{\"cell_type\": \"code\", \"source\": [\"import a\\n\"]}]}");
    let bad = v(b"{}");
    let (table, warnings) = get_imports_from_ipynb_files(vec![
        (v(b"good.ipynb"), good),
        (v(b"bad.ipynb"), bad),
    ]);
    assert!(table.get(&v(b"a")).is_some());
    assert_eq!(warnings.len(), 1);
    assert_eq!(warnings[0].0, v(b"bad.ipynb"));
}

#[test]
fn cell_extraction_blanks_magics_and_strips_newlines() {
    let cells = vec![
        RawCell {
            cell_type: Some(v(b"code")),
            lines: Some(vec![Some(v(b"%magic\n")), Some(v(b"import x\n")), Some(v(b"tail"))]),
        },
        RawCell { cell_type: Some(v(b"markdown")), lines: Some(vec![Some(v(b"# t\n"))]) },
    ];
    let blob = deptry_core::notebook::extract_code_from_notebook_cells(&cells);
    assert_eq!(blob, v(b"\nimport x\ntail"));
}

#[test]
fn non_string_entries_are_skipped() {
    let cells = vec![RawCell {
        cell_type: Some(v(b"code")),
        lines: Some(vec![None, Some(v(b"import x\n"))]),
    }];
    let blob = deptry_core::notebook::extract_code_from_notebook_cells(&cells);
    assert_eq!(blob, v(b"import x"));
}

#[test]
fn roots_supplied_twice_are_deduplicated() {
    let out = deptry_core::discovery::dedup_directories(vec![v(b"src"), v(b"src"), v(b"lib")]);
    assert_eq!(out, vec![v(b"src"), v(b"lib")]);
}

#[test]
fn exclude_pattern_is_anchored_and_joined() {
    let pat = deptry_core::discovery::build_exclude_pattern(&vec![v(b"build"), v(b"dist")]);
    assert_eq!(pat, Some(v(b"^(build|dist)")));
    assert_eq!(deptry_core::discovery::build_exclude_pattern(&vec![]), None);
}

#[test]
fn exclusion_matches_at_path_start_only() {
    let patterns = vec![v(b"build")];
    assert_eq!(
        deptry_core::discovery::path_is_excluded(&patterns, &v(b"build/x.py")),
        Some(true)
    );
    assert_eq!(
        deptry_core::discovery::path_is_excluded(&patterns, &v(b"src/build/x.py")),
        Some(false)
    );
}

#[test]
fn leading_dot_slash_is_stripped_before_matching() {
    let patterns = vec![v(b"build")];
    assert_eq!(
        deptry_core::discovery::path_is_excluded(&patterns, &v(b"./build/x.py")),
        Some(true)
    );
    assert_eq!(deptry_core::discovery::strip_dot_slash(&v(b"./a/b")), v(b"a/b"));
    assert_eq!(deptry_core::discovery::strip_dot_slash(&v(b"a/b")), v(b"a/b"));
}

#[test]
fn no_patterns_exclude_nothing() {
    assert_eq!(
        deptry_core::discovery::path_is_excluded(&vec![], &v(b"anything.py")),
        Some(false)
    );
}

#[test]
fn invalid_pattern_is_reported() {
    assert_eq!(
        deptry_core::discovery::path_is_excluded(&vec![v(b"(unclosed")], &v(b"x.py")),
        None
    );
}

#[test]
fn extension_check_selects_sources() {
    assert!(deptry_core::discovery::has_supported_extension(&v(b"a/b.py"), false));
    assert!(!deptry_core::discovery::has_supported_extension(&v(b"a/b.txt"), false));
    assert!(!deptry_core::discovery::has_supported_extension(&v(b"a/b.ipynb"), false));
    assert!(deptry_core::discovery::has_supported_extension(&v(b"a/b.ipynb"), true));
    assert!(!deptry_core::discovery::has_supported_extension(&v(b"py"), true));
}
