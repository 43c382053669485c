use rwat::lex::tokenize;
use rwat::token::{Known, TokenStream};
use rwat::types::SymbolAnnotation;

fn sym_known() -> Known {
    Known { sym: true, reloc: false }
}

fn reloc_known() -> Known {
    Known { sym: false, reloc: true }
}

fn into_owned(sym: SymbolAnnotation) -> Option<Option<String>> {
    match sym {
        SymbolAnnotation::Missing => None,
        SymbolAnnotation::Inferred => Some(None),
        SymbolAnnotation::Explicit(name) => Some(Some(name)),
    }
}

/// The token stream of `src` and the position just after its first `(`.
fn open(src: &str) -> (TokenStream, usize) {
    let s = tokenize(src);
    let pos = s.expect_lparen(0, sym_known()).unwrap();
    (s, pos)
}

fn parse_func_sym(src: &str) -> Option<Option<String>> {
    let (s, pos) = open(src);
    let (sym, next) = s.scan_func_sym(pos, sym_known()).unwrap();
    s.expect_rparen(next, sym_known()).unwrap();
    into_owned(sym)
}

fn parse_import_syms(src: &str) -> Vec<Option<Option<String>>> {
    let (s, pos) = open(src);
    let (syms, next) = s.scan_import_syms(pos, sym_known()).unwrap();
    s.expect_rparen(next, sym_known()).unwrap();
    syms.into_iter().map(into_owned).collect()
}

fn parse_import_syms_err(src: &str) -> String {
    let (s, pos) = open(src);
    match s.scan_import_syms(pos, sym_known()) {
        Ok(_) => panic!("expected parse error"),
        Err(err) => err.message(),
    }
}

fn parse_reloc_count(src: &str) -> usize {
    let s = tokenize(src);
    let pos = s.expect_lparen(0, reloc_known()).unwrap();
    s.scan_func_reloc_spans(pos, reloc_known()).unwrap().0.len()
}

fn parse_reloc_err(src: &str) -> String {
    let s = tokenize(src);
    let pos = s.expect_lparen(0, reloc_known()).unwrap();
    match s.scan_func_reloc_spans(pos, reloc_known()) {
        Ok(_) => panic!("expected parse error"),
        Err(err) => err.message(),
    }
}

fn parse_item_sig(src: &str) -> Option<Option<String>> {
    let s = tokenize(src);
    into_owned(s.scan_item_sig(0, sym_known()).unwrap().0)
}

fn parse_sym_annotation(src: &str) -> Option<Option<String>> {
    let s = tokenize(src);
    let (sym, next) = s.scan_sym_annotation(0, sym_known()).unwrap();
    if matches!(sym, SymbolAnnotation::Missing) {
        let pos = s.expect_lparen(next, sym_known()).unwrap();
        s.skip_until_rparen(pos, sym_known()).unwrap();
    }
    into_owned(sym)
}

#[test]
fn test_scan_func_sym_examples() {
    assert_eq!(parse_func_sym(r#"(func $f (@sym (name "foo")))"#), Some(Some("foo".into())));
    assert_eq!(parse_func_sym(r#"(func $f (@sym))"#), Some(None));
    assert_eq!(parse_func_sym(r#"(func $f)"#), None);
}

#[test]
fn test_scan_import_syms_examples() {
    assert_eq!(
        parse_import_syms(r#"(import "env" "f" (func $f (@sym (name "foo"))))"#),
        vec![Some(Some("foo".into()))],
    );
    assert_eq!(
        parse_import_syms(r#"(import "env" (item "f" (func $f (@sym))) (item "g" (memory 1)))"#),
        vec![Some(None), None],
    );
    assert_eq!(
        parse_import_syms(r#"(import "env" (item "f") (item "g") (func))"#),
        vec![None, None],
    );
}

#[test]
fn test_scan_import_syms_rejects_group2_sym() {
    let err = parse_import_syms_err(r#"(import "env" (item "f") (func (@sym)))"#);
    assert!(err.contains("`@sym` is not allowed on group2 imports"));
}

#[test]
fn test_scan_func_reloc_spans_examples() {
    assert_eq!(
        parse_reloc_count(r#"(func call $foo (@reloc) i32.const 0 return_call $bar (@reloc))"#),
        2,
    );
}

#[test]
fn test_scan_func_reloc_spans_rejects_non_call_annotation() {
    let err = parse_reloc_err(r#"(func i32.const 0 (@reloc))"#);
    assert!(err.contains("`@reloc` must follow `call` or `return_call`"));
}

#[test]
fn test_scan_item_sig_examples() {
    assert_eq!(parse_item_sig(r#"(func $f (@sym (name "foo")) (type 0))"#), Some(Some("foo".into())));
    assert_eq!(parse_item_sig(r#"(func $f (@sym) (type 0))"#), Some(None));
    assert_eq!(parse_item_sig(r#"(memory 1)"#), None);
}

#[test]
fn test_scan_sym_annotation_examples() {
    assert_eq!(parse_sym_annotation(r#"(@sym (name "foo"))"#), Some(Some("foo".into())));
    assert_eq!(parse_sym_annotation(r#"(@sym)"#), Some(None));
    assert_eq!(parse_sym_annotation(r#"(type 0)"#), None);
}
