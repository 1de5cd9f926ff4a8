use deptry_core::locate::convert_imports_with_textranges_to_location_objects;
use deptry_core::locate::locate_offset;
use deptry_core::location::Location;
use deptry_core::parse::parse_file_content;
use deptry_core::pipeline::FileError;
use deptry_core::pipeline::ThreadResult;
use deptry_core::pipeline::merge_results_from_threads;
use deptry_core::visitor::extract_imports_from_parsed_file_content;

fn v(s: &[u8]) -> Vec<u8> {
    s.to_vec()
}

#[test]
fn parse_and_extract_compose() {
    let source = v(b"import x\nfrom y.z import w\n");
    let stmts = parse_file_content(&source, &v(b"f.py")).unwrap();
    let spans = extract_imports_from_parsed_file_content(&stmts);
    assert_eq!(spans.len(), 2);
    assert_eq!(spans.get(&v(b"x")).unwrap()[0].start, 7);
    assert_eq!(spans.get(&v(b"y")).unwrap()[0].start, 9);
    let table = convert_imports_with_textranges_to_location_objects(&spans, &v(b"f.py"), &source);
    assert_eq!(table.get(&v(b"x")).unwrap()[0].line, Some(1));
    assert_eq!(table.get(&v(b"y")).unwrap()[0].line, Some(2));
    assert_eq!(table.get(&v(b"y")).unwrap()[0].column, Some(1));
}

#[test]
fn parse_rejects_broken_source() {
    let r = parse_file_content(&v(b"import (\n"), &v(b"f.py"));
    assert!(matches!(r, Err(FileError::Syntax(_))));
}

#[test]
fn locate_offset_reads_line_column_and_suppression() {
    let text = v(b"a = 1\nimport x  # deptry: ignore\n");
    let loc = locate_offset(&v(b"f.py"), &text, 6);
    assert_eq!(loc.file, v(b"f.py"));
    assert_eq!(loc.line, Some(2));
    assert_eq!(loc.column, Some(1));
    assert_eq!(loc.suppressed_rules, vec![v(b"*")]);
}

#[test]
fn location_new_fills_every_field() {
    let loc = Location::new(v(b"f.py"), Some(3), Some(4), vec![v(b"DEP1")]);
    assert_eq!(loc.file, v(b"f.py"));
    assert_eq!(loc.line, Some(3));
    assert_eq!(loc.column, Some(4));
    assert_eq!(loc.suppressed_rules, vec![v(b"DEP1")]);
}

#[test]
fn merge_keeps_successes_and_failures_apart() {
    let ok = deptry_core::pipeline::get_imports_from_py_file(&v(b"a.py"), &v(b"import m\n"));
    let results = vec![
        ThreadResult { file: v(b"a.py"), result: ok },
        ThreadResult { file: v(b"b.py"), result: Err(FileError::NotFound) },
    ];
    let (table, errors) = merge_results_from_threads(results);
    assert!(table.get(&v(b"m")).is_some());
    assert_eq!(errors.len(), 1);
    assert_eq!(errors[0].0, v(b"b.py"));
    assert!(matches!(errors[0].1, FileError::NotFound));
}

#[test]
fn merge_of_nothing_is_empty() {
    let (table, errors) = merge_results_from_threads(Vec::new());
    assert_eq!(table.len(), 0);
    assert!(errors.is_empty());
}
