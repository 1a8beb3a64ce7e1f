use selium_order::assemble::{plan_rewrite, reorder_source};
use selium_order::classify::{blank_lines_after, category, contains_test, has_cfg_test};
use selium_order::input::{collect_input_files, is_rust_file, push_file};
use selium_order::lines::line_start_offsets;
use selium_order::model::{CfgExpr, Decl, DeclKind, OrderError, ParsedFile, Span};
use selium_order::resolve::{header_to_string, item_snippet, span_range};

fn sp(start_line: usize, start_col: usize, end_line: usize, end_col: usize) -> Span {
    Span {
        start_line,
        start_col,
        end_line,
        end_col,
    }
}

fn decl(kind: DeclKind) -> Decl {
    Decl {
        kind,
        span: sp(1, 0, 1, 1),
        attr_spans: Vec::new(),
        mod_name: None,
        cfg_args: Vec::new(),
    }
}

fn module(name: &str, cfg_args: Vec<CfgExpr>) -> Decl {
    Decl {
        kind: DeclKind::Mod,
        span: sp(1, 0, 1, 1),
        attr_spans: Vec::new(),
        mod_name: Some(name.as_bytes().to_vec()),
        cfg_args,
    }
}

fn ident(name: &str) -> CfgExpr {
    CfgExpr::Ident(name.as_bytes().to_vec())
}

#[test]
fn line_table_trailing_newline() {
    let src = b"ab\nc\n".to_vec();
    assert_eq!(line_start_offsets(&src), vec![0, 3, 5]);
}

#[test]
fn line_table_no_trailing_newline() {
    let src = b"ab\nc".to_vec();
    assert_eq!(line_start_offsets(&src), vec![0, 3, 4]);
}

#[test]
fn line_table_empty() {
    let src = Vec::new();
    assert_eq!(line_start_offsets(&src), vec![0]);
}

#[test]
fn line_table_only_newline() {
    let src = b"\n".to_vec();
    assert_eq!(line_start_offsets(&src), vec![0, 1]);
}

#[test]
fn span_to_range_basic() {
    let table = vec![0, 3, 6];
    let r = span_range(&sp(1, 0, 1, 2), &table, 6);
    assert_eq!((r.start, r.end), (0, 2));
    let r = span_range(&sp(2, 1, 2, 3), &table, 6);
    assert_eq!((r.start, r.end), (4, 6));
}

#[test]
fn span_to_range_clamps() {
    let table = vec![0, 3, 6];
    // A line beyond the table falls back to the text length.
    let r = span_range(&sp(9, 0, 9, 5), &table, 6);
    assert_eq!((r.start, r.end), (6, 6));
    // Line 0 is clamped to the first line.
    let r = span_range(&sp(0, 1, 1, 2), &table, 6);
    assert_eq!((r.start, r.end), (1, 2));
    // A column running past the end is clamped to the length.
    let r = span_range(&sp(2, 99, 2, 100), &table, 6);
    assert_eq!((r.start, r.end), (6, 6));
    // A start past the end collapses to the end.
    let r = span_range(&sp(2, 2, 1, 1), &table, 6);
    assert_eq!((r.start, r.end), (1, 1));
}

#[test]
fn rust_file_extension_cases() {
    assert!(is_rust_file(&b"a.rs".to_vec()));
    assert!(is_rust_file(&b"dir/a.rs".to_vec()));
    assert!(is_rust_file(&b"A.RS".to_vec()));
    assert!(is_rust_file(&b"a.Rs".to_vec()));
    assert!(is_rust_file(&b"dir/a.b.rs".to_vec()));
    assert!(!is_rust_file(&b".rs".to_vec()));
    assert!(!is_rust_file(&b"dir/.rs".to_vec()));
    assert!(!is_rust_file(&b"a.rsx".to_vec()));
    assert!(!is_rust_file(&b"rs".to_vec()));
    assert!(!is_rust_file(&b"a_rs".to_vec()));
}

#[test]
fn push_file_deduplicates() {
    let mut files: Vec<Vec<u8>> = Vec::new();
    push_file(b"a.rs".to_vec(), &mut files);
    push_file(b"b.rs".to_vec(), &mut files);
    push_file(b"a.rs".to_vec(), &mut files);
    assert_eq!(files, vec![b"a.rs".to_vec(), b"b.rs".to_vec()]);
}

#[test]
fn collect_input_keeps_first_seen_order() {
    let paths = vec![b"b.rs".to_vec(), b"a.rs".to_vec(), b"b.rs".to_vec()];
    let files = collect_input_files(paths).unwrap();
    assert_eq!(files, vec![b"b.rs".to_vec(), b"a.rs".to_vec()]);
}

#[test]
fn collect_input_empty_fails() {
    assert_eq!(collect_input_files(Vec::new()), Err(OrderError::NoInputFiles));
}

#[test]
fn blank_lines_per_category() {
    assert_eq!(blank_lines_after(0), 0);
    assert_eq!(blank_lines_after(1), 1);
    assert_eq!(blank_lines_after(2), 0);
    assert_eq!(blank_lines_after(3), 1);
    assert_eq!(blank_lines_after(4), 1);
    assert_eq!(blank_lines_after(5), 1);
    assert_eq!(blank_lines_after(6), 1);
    assert_eq!(blank_lines_after(7), 1);
}

#[test]
fn predicate_matching() {
    assert!(contains_test(&ident("test")));
    assert!(!contains_test(&ident("tests")));
    assert!(!contains_test(&ident("Test")));
    assert!(contains_test(&CfgExpr::Grouped(Box::new(ident("test")))));
    assert!(contains_test(&CfgExpr::List(vec![
        CfgExpr::Opaque,
        ident("test")
    ])));
    assert!(contains_test(&CfgExpr::Binary(
        Box::new(ident("unix")),
        Box::new(ident("test"))
    )));
    assert!(contains_test(&CfgExpr::Call(
        b"any".to_vec(),
        vec![ident("other"), ident("test")]
    )));
    assert!(contains_test(&CfgExpr::Call(
        b"all".to_vec(),
        vec![ident("test")]
    )));
    assert!(!contains_test(&CfgExpr::Call(
        b"not".to_vec(),
        vec![ident("test")]
    )));
    assert!(!contains_test(&CfgExpr::Opaque));
    assert!(!has_cfg_test(&vec![CfgExpr::Opaque, ident("unix")]));
    assert!(has_cfg_test(&vec![CfgExpr::Opaque, ident("test")]));
}

#[test]
fn categories_by_kind() {
    assert_eq!(category(&decl(DeclKind::Use)), 0);
    assert_eq!(category(&decl(DeclKind::ExternCrate)), 0);
    assert_eq!(category(&decl(DeclKind::TypeAlias)), 1);
    assert_eq!(category(&decl(DeclKind::Const)), 2);
    assert_eq!(category(&decl(DeclKind::Static)), 2);
    assert_eq!(category(&decl(DeclKind::Trait)), 3);
    assert_eq!(category(&decl(DeclKind::TraitAlias)), 3);
    assert_eq!(category(&decl(DeclKind::Struct)), 4);
    assert_eq!(category(&decl(DeclKind::Enum)), 4);
    assert_eq!(category(&decl(DeclKind::Union)), 4);
    assert_eq!(category(&decl(DeclKind::Impl)), 5);
    assert_eq!(category(&decl(DeclKind::Fn)), 6);
    assert_eq!(category(&decl(DeclKind::ForeignMod)), 6);
    assert_eq!(category(&decl(DeclKind::MacroCall)), 6);
    assert_eq!(category(&decl(DeclKind::Other)), 6);
}

#[test]
fn test_module_rule() {
    // A module named `tests` with no conditional attribute is still routed
    // to the tests bucket.
    assert_eq!(category(&module("tests", Vec::new())), 7);
    // A conditional `test` predicate routes any module name there.
    assert_eq!(category(&module("helpers", vec![ident("test")])), 7);
    // `any(test, other)` counts as a test condition.
    assert_eq!(
        category(&module(
            "helpers",
            vec![CfgExpr::Call(b"any".to_vec(), vec![ident("test"), ident("other")])]
        )),
        7
    );
    // An ordinary module stays in the type category.
    assert_eq!(category(&module("helpers", Vec::new())), 4);
    // An unrecognized predicate fails open to "not a test module".
    assert_eq!(category(&module("helpers", vec![CfgExpr::Opaque])), 4);
}

#[test]
fn snippet_includes_attributes() {
    let src = b"#[a]\nfn x() {}\n".to_vec();
    let table = line_start_offsets(&src);
    assert_eq!(table, vec![0, 5, 15]);
    let d = Decl {
        kind: DeclKind::Fn,
        span: sp(2, 0, 2, 9),
        attr_spans: vec![sp(1, 0, 1, 4)],
        mod_name: None,
        cfg_args: Vec::new(),
    };
    assert_eq!(item_snippet(&d, &src, &table), b"#[a]\nfn x() {}".to_vec());
}

#[test]
fn snippet_without_attributes_is_own_span() {
    let src = b"#[a]\nfn x() {}\n".to_vec();
    let table = line_start_offsets(&src);
    let d = Decl {
        kind: DeclKind::Fn,
        span: sp(2, 0, 2, 9),
        attr_spans: Vec::new(),
        mod_name: None,
        cfg_args: Vec::new(),
    };
    assert_eq!(item_snippet(&d, &src, &table), b"fn x() {}".to_vec());
}

#[test]
fn header_envelope_keeps_interleaved_text() {
    let src = b"#[a]\n// c\n#[b]\nrest".to_vec();
    let table = line_start_offsets(&src);
    assert_eq!(table, vec![0, 5, 10, 15, 19]);
    let spans = vec![sp(1, 0, 1, 4), sp(3, 0, 3, 4)];
    assert_eq!(
        header_to_string(&spans, &src, &table),
        b"#[a]\n// c\n#[b]".to_vec()
    );
}

#[test]
fn header_empty_without_attributes() {
    let src = b"fn x() {}\n".to_vec();
    let table = line_start_offsets(&src);
    let spans: Vec<Span> = Vec::new();
    assert_eq!(header_to_string(&spans, &src, &table), Vec::<u8>::new());
}

#[test]
fn reorder_empty_file_is_noop() {
    let src = Vec::new();
    let parsed = ParsedFile {
        shebang: None,
        file_attr_spans: Vec::new(),
        decls: Vec::new(),
    };
    assert_eq!(reorder_source(&src, &parsed), Vec::<u8>::new());
    assert_eq!(plan_rewrite(&src, &parsed), None);
}

#[test]
fn reorder_shebang_only() {
    let src = b"#!/usr/bin/env run\n".to_vec();
    let parsed = ParsedFile {
        shebang: Some(b"#!/usr/bin/env run".to_vec()),
        file_attr_spans: Vec::new(),
        decls: Vec::new(),
    };
    assert_eq!(reorder_source(&src, &parsed), b"#!/usr/bin/env run\n".to_vec());
    assert_eq!(plan_rewrite(&src, &parsed), None);
}
