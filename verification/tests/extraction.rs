use deptry_core::ast::ImportAlias;
use deptry_core::ast::PyStmt;
use deptry_core::ast::TextSpan;
use deptry_core::location::Location;
use deptry_core::pipeline::FileError;
use deptry_core::pipeline::get_imports_from_py_file;
use deptry_core::pipeline::get_imports_from_py_files;

fn v(s: &[u8]) -> Vec<u8> {
    s.to_vec()
}

fn extract(source: &[u8]) -> deptry_core::table::ModuleTable<Location> {
    get_imports_from_py_file(&v(b"test.py"), &v(source)).unwrap()
}

fn locations_of(
    table: &deptry_core::table::ModuleTable<Location>,
    module: &[u8],
) -> Vec<(usize, usize)> {
    table
        .get(&v(module))
        .expect("module should be recorded")
        .iter()
        .map(|l| (l.line.unwrap(), l.column.unwrap()))
        .collect()
}

#[test]
fn import_yields_top_level_module_at_alias_span() {
    let table = extract(b"import a.b.c\n");
    assert_eq!(table.len(), 1);
    assert_eq!(locations_of(&table, b"a"), vec![(1, 8)]);
}

#[test]
fn aliased_import_yields_top_level_module() {
    let table = extract(b"import a.b.c as x\n");
    assert_eq!(table.len(), 1);
    assert_eq!(locations_of(&table, b"a"), vec![(1, 8)]);
}

#[test]
fn multiple_targets_yield_one_entry_each() {
    let table = extract(b"import foo, bar.baz\n");
    assert_eq!(table.len(), 2);
    assert_eq!(locations_of(&table, b"foo"), vec![(1, 8)]);
    assert_eq!(locations_of(&table, b"bar"), vec![(1, 13)]);
}

#[test]
fn from_import_yields_module_at_statement_start() {
    let table = extract(b"from pkg.sub import x\n");
    assert_eq!(table.len(), 1);
    assert_eq!(locations_of(&table, b"pkg"), vec![(1, 1)]);
}

#[test]
fn relative_import_yields_nothing() {
    let table = extract(b"from . import x\n");
    assert_eq!(table.len(), 0);
}

#[test]
fn relative_import_with_module_yields_nothing() {
    let table = extract(b"from .sibling import x\n");
    assert_eq!(table.len(), 0);
}

#[test]
fn duplicate_imports_keep_every_location() {
    let table = extract(b"import foo\nimport foo\n");
    assert_eq!(locations_of(&table, b"foo"), vec![(1, 8), (2, 8)]);
}

#[test]
fn nested_imports_are_still_visited() {
    let table = extract(b"def f():\n    import inner\n");
    assert_eq!(locations_of(&table, b"inner"), vec![(2, 12)]);
}

#[test]
fn type_checking_guard_excludes_its_body() {
    let table = extract(b"TYPE_CHECKING = False\nif TYPE_CHECKING:\n    import hidden\n");
    assert_eq!(table.len(), 0);
}

#[test]
fn typing_attribute_guard_excludes_its_body() {
    let table = extract(b"import typing\nif typing.TYPE_CHECKING:\n    import hidden\n");
    assert_eq!(table.len(), 1);
    assert!(table.get(&v(b"typing")).is_some());
    assert!(table.get(&v(b"hidden")).is_none());
}

#[test]
fn other_conditions_do_not_exclude() {
    let table = extract(b"if True:\n    import kept\n");
    assert_eq!(locations_of(&table, b"kept"), vec![(2, 12)]);
}

#[test]
fn dynamic_import_via_module_attribute() {
    let table = extract(b"import importlib\nimportlib.import_module(\"foo.bar\")\n");
    assert_eq!(locations_of(&table, b"importlib"), vec![(1, 8)]);
    assert_eq!(locations_of(&table, b"foo"), vec![(2, 1)]);
}

#[test]
fn dynamic_import_via_aliased_loader() {
    let table = extract(b"from importlib import import_module as im\nim(\"foo\")\n");
    assert_eq!(locations_of(&table, b"importlib"), vec![(1, 1)]);
    assert_eq!(locations_of(&table, b"foo"), vec![(2, 1)]);
}

#[test]
fn unrelated_call_records_nothing() {
    let table = extract(b"load(\"foo\")\n");
    assert_eq!(table.len(), 0);
}

#[test]
fn dynamic_import_needs_string_literal() {
    let table = extract(b"import importlib\nname = \"foo\"\nimportlib.import_module(name)\n");
    assert!(table.get(&v(b"foo")).is_none());
    assert!(table.get(&v(b"name")).is_none());
}

#[test]
fn multibyte_text_keeps_character_columns() {
    // Two bytes for the accented letter, but only one character: the
    // import's column counts characters, not bytes.
    let table = extract("\u{e9} = 1; import os\n".as_bytes());
    assert_eq!(locations_of(&table, b"os"), vec![(1, 15)]);
}

#[test]
fn carriage_return_line_endings_count_once() {
    let table = extract(b"import foo\r\nimport bar\r\n");
    assert_eq!(locations_of(&table, b"foo"), vec![(1, 8)]);
    assert_eq!(locations_of(&table, b"bar"), vec![(2, 8)]);
}

#[test]
fn suppression_with_codes_is_read() {
    let table = extract(b"import foo  # deptry: ignore[DEP001,DEP002]\n");
    let locs = table.get(&v(b"foo")).unwrap();
    assert_eq!(locs[0].suppressed_rules, vec![v(b"DEP001"), v(b"DEP002")]);
}

#[test]
fn bare_suppression_suppresses_all() {
    let table = extract(b"import foo  # deptry: ignore\n");
    let locs = table.get(&v(b"foo")).unwrap();
    assert_eq!(locs[0].suppressed_rules, vec![v(b"*")]);
}

#[test]
fn no_comment_suppresses_nothing() {
    let table = extract(b"import foo\n");
    let locs = table.get(&v(b"foo")).unwrap();
    assert!(locs[0].suppressed_rules.is_empty());
}

#[test]
fn suppression_codes_are_trimmed() {
    let table = extract(b"import foo  # deptry: ignore[ DEP001 , DEP002 ]\n");
    let locs = table.get(&v(b"foo")).unwrap();
    assert_eq!(locs[0].suppressed_rules, vec![v(b"DEP001"), v(b"DEP002")]);
}

#[test]
fn empty_bracket_suppresses_nothing_by_code() {
    let table = extract(b"import foo  # deptry: ignore[]\n");
    let locs = table.get(&v(b"foo")).unwrap();
    assert!(locs[0].suppressed_rules.is_empty());
}

#[test]
fn suppression_applies_to_the_import_line_only() {
    let table = extract(b"import foo  # deptry: ignore[DEP9]\nimport bar\n");
    assert_eq!(
        table.get(&v(b"foo")).unwrap()[0].suppressed_rules,
        vec![v(b"DEP9")]
    );
    assert!(table.get(&v(b"bar")).unwrap()[0].suppressed_rules.is_empty());
}

#[test]
fn syntax_error_is_reported_as_such() {
    let r = get_imports_from_py_file(&v(b"bad.py"), &v(b"def broken(:\n"));
    assert!(matches!(r, Err(FileError::Syntax(_))));
}

#[test]
fn batch_with_one_broken_file_keeps_the_others() {
    let files = vec![
        (v(b"a.py"), v(b"import x\n")),
        (v(b"b.py"), v(b"def broken(:\n")),
        (v(b"c.py"), v(b"import y\n")),
    ];
    let (table, warnings) = get_imports_from_py_files(files);
    assert!(table.get(&v(b"x")).is_some());
    assert!(table.get(&v(b"y")).is_some());
    assert_eq!(warnings.len(), 1);
    assert_eq!(warnings[0].0, v(b"b.py"));
    assert!(matches!(warnings[0].1, FileError::Syntax(_)));
}

#[test]
fn batch_merges_locations_across_files_in_order() {
    let files = vec![
        (v(b"a.py"), v(b"import foo\n")),
        (v(b"b.py"), v(b"import foo\n")),
    ];
    let (table, warnings) = get_imports_from_py_files(files);
    assert!(warnings.is_empty());
    let locs = table.get(&v(b"foo")).unwrap();
    assert_eq!(locs.len(), 2);
    assert_eq!(locs[0].file, v(b"a.py"));
    assert_eq!(locs[1].file, v(b"b.py"));
}

#[test]
fn every_location_names_its_file() {
    let table = extract(b"import one\nimport two\n");
    for i in 0..table.len() {
        for l in table.values_at(i) {
            assert_eq!(l.file, v(b"test.py"));
        }
    }
}

#[test]
fn get_top_level_module_name_truncates_at_first_dot() {
    assert_eq!(
        deptry_core::visitor::get_top_level_module_name(&v(b"foo.bar.baz")),
        v(b"foo")
    );
    assert_eq!(
        deptry_core::visitor::get_top_level_module_name(&v(b"plain")),
        v(b"plain")
    );
}

#[test]
fn visitor_walks_handmade_statements() {
    let stmts = vec![PyStmt::Import {
        names: vec![ImportAlias {
            name: v(b"alpha.beta"),
            asname: None,
            span: TextSpan { start: 7, end: 17 },
        }],
    }];
    let mut visitor = deptry_core::visitor::ImportVisitor::new();
    visitor.visit_stmts(&stmts);
    let table = visitor.get_imports();
    let spans = table.get(&v(b"alpha")).unwrap();
    assert_eq!(spans.len(), 1);
    assert_eq!(spans[0].start, 7);
}
