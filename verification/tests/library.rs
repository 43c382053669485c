use rwat::cli::{decide, parse_args, usage, Action, Args, RunError};
use rwat::error::{Error, ErrorKind};
use rwat::keys::SymbolIndices;
use rwat::leb::{block_type_len_at, encode_5_byte_u32_leb, leb_len_at, prefixed_start, u32_leb_len, u32_leb_len_at};
use rwat::lex::tokenize;
use rwat::link::{build_link_info, insert_symbol_index, FuncAnnotation, ImportItemKind, ModuleItem, RelocImports, RelocWat, Symbol, TableAnnotation};
use rwat::parse::parse_reloc_wat;
use rwat::parse_rwat;
use rwat::reloc::{is_relocatable_keyword, prefixed_table_atomic_patch, prefixed_table_patch, RELOC_TABLE_NUMBER_LEB};
use rwat::token::TokenKind;
use rwat::types::{SymbolAnnotation, SymbolKey};
use rwat::wat::{check_text_module, WatShape};

fn strings(args: &[&str]) -> Vec<String> {
    args.iter().map(|a| a.to_string()).collect()
}

fn err_message(src: &str) -> String {
    parse_rwat(src).unwrap_err().message()
}

/// The payloads of the code section and of the `reloc.CODE` section.
fn code_and_relocs(wasm: &[u8]) -> (Vec<u8>, Vec<u8>) {
    let mut code = Vec::new();
    let mut relocs = Vec::new();
    for payload in wasmparser::Parser::new(0).parse_all(wasm) {
        match payload.unwrap() {
            wasmparser::Payload::CodeSectionStart { unchecked_range, .. } => {
                code = wasm[unchecked_range.start as usize..unchecked_range.end as usize].to_vec()
            }
            wasmparser::Payload::CustomSection(c) if c.name() == "reloc.CODE" => relocs = c.data().to_vec(),
            _ => {}
        }
    }
    (code, relocs)
}

fn read_leb(bytes: &[u8], pos: &mut usize) -> u32 {
    let mut value = 0u32;
    let mut shift = 0;
    loop {
        let byte = bytes[*pos];
        *pos += 1;
        value |= ((byte & 0x7f) as u32) << shift;
        if byte & 0x80 == 0 {
            return value;
        }
        shift += 7;
    }
}

#[test]
fn test_encode_5_byte_u32_leb_values() {
    let mut out = vec![0xaa];
    encode_5_byte_u32_leb(0, &mut out);
    assert_eq!(out, vec![0xaa, 0x80, 0x80, 0x80, 0x80, 0x00]);
    let mut out = Vec::new();
    encode_5_byte_u32_leb(300, &mut out);
    assert_eq!(out, vec![0xac, 0x82, 0x80, 0x80, 0x00]);
    let mut out = Vec::new();
    encode_5_byte_u32_leb(u32::MAX, &mut out);
    assert_eq!(out, vec![0xff, 0xff, 0xff, 0xff, 0x0f]);
}

#[test]
fn test_padded_leb_decodes_to_value() {
    for value in [0u32, 1, 127, 128, 300, 0x3fff, 0x4000, 0x0fff_ffff, u32::MAX] {
        let mut out = Vec::new();
        encode_5_byte_u32_leb(value, &mut out);
        let mut pos = 0;
        assert_eq!(read_leb(&out, &mut pos), value);
        assert_eq!(pos, 5);
    }
}

#[test]
fn test_u32_leb_len_boundaries() {
    assert_eq!(u32_leb_len(0), 1);
    assert_eq!(u32_leb_len(0x7f), 1);
    assert_eq!(u32_leb_len(0x80), 2);
    assert_eq!(u32_leb_len(0x3fff), 2);
    assert_eq!(u32_leb_len(0x4000), 3);
    assert_eq!(u32_leb_len(0x1f_ffff), 3);
    assert_eq!(u32_leb_len(0x20_0000), 4);
    assert_eq!(u32_leb_len(0x0fff_ffff), 4);
    assert_eq!(u32_leb_len(0x1000_0000), 5);
    assert_eq!(u32_leb_len(u32::MAX), 5);
}

#[test]
fn test_leb_lengths_in_bodies() {
    let body = [0x10, 0xac, 0x02, 0x0b];
    assert_eq!(leb_len_at(&body, 1, 5), 2);
    assert_eq!(u32_leb_len_at(&body, 0), 1);
    // A block type of `0x40` is one byte; one prefixed by `0x63` is two.
    assert_eq!(block_type_len_at(&[0x40], 0), 1);
    assert_eq!(block_type_len_at(&[0x63, 0x05], 0), 2);
    // `0xfc 0x10` (`table.size`): its immediate starts after the sub-opcode.
    assert_eq!(prefixed_start(0, &[0xfc, 0x10, 0x00]), 2);
    assert_eq!(prefixed_start(0, &[0xfc, 0x90, 0x01, 0x00]), 3);
}

#[test]
fn test_prefixed_table_patches() {
    let body = [0xfc, 0x10, 0x03];
    let patches = prefixed_table_patch(0, &body, SymbolKey::Table(3)).unwrap().unwrap();
    assert_eq!(patches.len(), 1);
    assert_eq!(patches[0].immediate_start, 2);
    assert_eq!(patches[0].original_len, 1);
    assert_eq!(patches[0].reloc_type, RELOC_TABLE_NUMBER_LEB);
    let body = [0xfe, 0x58, 0x00, 0x81, 0x01];
    let patches = prefixed_table_atomic_patch(0, &body, 129).unwrap().unwrap();
    assert_eq!(patches[0].immediate_start, 3);
    assert_eq!(patches[0].original_len, 2);
    assert_eq!(patches[0].target, SymbolKey::Table(129));
    assert!(prefixed_table_patch(0, &[0xfc], SymbolKey::Table(0)).is_err());
}

#[test]
fn test_relocatable_keywords() {
    for kw in ["call", "return_call", "throw", "try_table", "call_indirect", "table.copy", "table.atomic.rmw.cmpxchg"] {
        assert!(is_relocatable_keyword(kw), "{kw}");
    }
    for kw in ["i32.const", "local.get", "call_ref", "", "table"] {
        assert!(!is_relocatable_keyword(kw), "{kw}");
    }
}

#[test]
fn test_symbol_annotation_accessors() {
    assert!(!SymbolAnnotation::Missing.is_present());
    assert!(SymbolAnnotation::Inferred.is_present());
    assert_eq!(SymbolAnnotation::Inferred.explicit_name(), None);
    assert_eq!(SymbolAnnotation::Explicit("f".into()).explicit_name(), Some("f".to_string()));
    assert_eq!(SymbolKey::Table(7).index(), 7);
}

#[test]
fn test_insert_symbol_index_records_position() {
    let mut indices = SymbolIndices::new();
    let symbols = vec![Symbol::FunctionImport { index: 0, explicit_name: None }];
    insert_symbol_index(&mut indices, &symbols, SymbolKey::Function(4));
    assert_eq!(indices.get(SymbolKey::Function(4)), Some(1));
    assert_eq!(indices.get(SymbolKey::Function(0)), None);
}

#[test]
fn test_symbol_indices_are_positions() {
    let rwat = RelocWat {
        import_annotations: vec![RelocImports {
            syms: vec![SymbolAnnotation::Inferred, SymbolAnnotation::Missing, SymbolAnnotation::Missing],
        }],
        func_annotations: vec![FuncAnnotation { sym: SymbolAnnotation::Explicit("g".into()), reloc_spans: vec![] }],
        table_annotations: vec![TableAnnotation { sym: SymbolAnnotation::Missing }],
    };
    let fields = vec![
        ModuleItem::Import { kinds: vec![ImportItemKind::Func, ImportItemKind::Table, ImportItemKind::Other] },
        ModuleItem::Func { id: None, span: 40, body: None },
        ModuleItem::Table { id: Some("t".into()), span: 50, imported: false },
    ];
    let info = build_link_info(&rwat, &fields).unwrap();
    assert_eq!(
        info.symbols,
        vec![
            Symbol::FunctionImport { index: 0, explicit_name: None },
            Symbol::FunctionDefined { index: 1, symbol_name: "g".into() },
            Symbol::TableImport { index: 0, explicit_name: None },
        ]
    );
    assert_eq!(info.symbol_indices.get(SymbolKey::Function(0)), Some(0));
    assert_eq!(info.symbol_indices.get(SymbolKey::Function(1)), Some(1));
    assert_eq!(info.symbol_indices.get(SymbolKey::Table(0)), Some(2));
    assert_eq!(info.symbol_indices.get(SymbolKey::Table(1)), None);
}

#[test]
fn test_annotations_out_of_line_are_refused() {
    let rwat = RelocWat { import_annotations: vec![], func_annotations: vec![], table_annotations: vec![] };
    let fields = vec![ModuleItem::Func { id: None, span: 0, body: None }];
    assert_eq!(build_link_info(&rwat, &fields).unwrap_err().kind, ErrorKind::Inconsistent);
}

#[test]
fn test_relocation_points_at_padded_index() {
    let wasm = parse_rwat(
        r#"(module (@rwat)
             (import "env" "f" (func $f (@sym)))
             (import "env" "g" (func $g (@sym)))
             (func $h (@sym)
               call $g (@reloc)
               call $f (@reloc)))"#,
    )
    .unwrap();
    let (code, relocs) = code_and_relocs(&wasm);
    let mut pos = 0;
    let _section = read_leb(&relocs, &mut pos);
    let count = read_leb(&relocs, &mut pos);
    assert_eq!(count, 2);
    let mut targets = Vec::new();
    for _ in 0..count {
        assert_eq!(relocs[pos], 0);
        pos += 1;
        let offset = read_leb(&relocs, &mut pos) as usize;
        let symbol = read_leb(&relocs, &mut pos);
        let mut at = offset;
        let index = read_leb(&code, &mut at);
        assert_eq!(at - offset, 5);
        targets.push((symbol, index));
    }
    // Symbols 0 and 1 are the imports `$f` and `$g`, functions 0 and 1.
    assert_eq!(targets, vec![(1, 1), (0, 0)]);
}

#[test]
fn test_output_starts_with_header() {
    let wasm = parse_rwat("(module (@rwat))").unwrap();
    assert_eq!(&wasm[..8], &[0x00, 0x61, 0x73, 0x6d, 0x01, 0x00, 0x00, 0x00]);
}

#[test]
fn test_error_binary_module() {
    // The annotation pass reads fields only, so a binary module stops there.
    assert_eq!(err_message(r#"(module (@rwat) binary "")"#), "expected `(`");
    let err = check_text_module(WatShape::BinaryModule { span: 1 }, &vec![]).unwrap_err();
    assert_eq!(err.message(), "binary modules are not supported");
    assert_eq!(err.offset, 1);
}

#[test]
fn test_error_conflicting_custom_section() {
    let msg = err_message(r#"(module (@rwat) (@custom "linking" "") (func))"#);
    assert!(msg.starts_with("input wat already defines `linking`/`reloc.*` custom sections"));
    let msg = err_message(r#"(module (@rwat) (@custom "reloc.DATA" "") (func))"#);
    assert!(msg.starts_with("input wat already defines"));
}

#[test]
fn test_error_expected_core_module() {
    let err = check_text_module(WatShape::Component, &vec![]).unwrap_err();
    assert_eq!(err, Error { offset: 0, kind: ErrorKind::ExpectedCoreModule });
    assert_eq!(err.message(), "expected a core wasm module");
    assert!(check_text_module(WatShape::TextModule { span: 1 }, &vec!["name".to_string()]).is_ok());
}

#[test]
fn test_error_reloc_on_imported_function() {
    let src = r#"(module (@rwat) (func $f (import "a" "b") call 0 (@reloc)))"#;
    let err = parse_rwat(src).unwrap_err();
    assert_eq!(err.message(), "`@reloc` is only allowed in inline function bodies");
    assert_eq!(err.offset, src.find("func").unwrap());
}

#[test]
fn test_error_missing_rwat_offset() {
    let src = "(module (func))";
    let err = parse_rwat(src).unwrap_err();
    assert_eq!(err.kind, ErrorKind::MissingRwatAnnotation);
    assert_eq!(err.offset, 1);
}

#[test]
fn test_error_extra_tokens() {
    assert_eq!(err_message("(module (@rwat)) (module)"), "extra tokens remaining after parse");
    assert_eq!(err_message("(component)"), "extra tokens remaining after parse");
}

#[test]
fn test_error_unclosed_annotation() {
    assert_eq!(err_message("(module (@rwat) (@foo"), "unclosed annotation");
}

#[test]
fn test_error_expected_rparen() {
    assert_eq!(err_message("(module (@rwat) (func)"), "expected `)`");
}

#[test]
fn test_error_utf8_symbol_name() {
    assert_eq!(err_message(r#"(module (@rwat) (func $f (@sym (name "\ff"))))"#), "expected a utf-8 string");
}

#[test]
fn test_error_mixed_import_items() {
    assert_eq!(
        err_message(r#"(module (@rwat) (import "env" (item "f" (func)) (item "g") (func)))"#),
        "unexpected `)`"
    );
}

#[test]
fn test_error_import_without_items() {
    assert_eq!(err_message(r#"(module (@rwat) (import "env" (func)))"#), "expected a string or import items");
}

#[test]
fn test_error_tag_relocation() {
    let msg = err_message(r#"(module (@rwat) (tag $t) (func throw $t (@reloc)))"#);
    assert_eq!(msg, "tag symbols are not supported in the symbol table");
}

#[test]
fn test_error_text_from_parser() {
    let err = parse_rwat("(module (@rwat) (func (result i32) i32.bogus))").unwrap_err();
    assert!(matches!(err.kind, ErrorKind::Text(_)));
}

#[test]
fn test_inferred_symbol_name_from_id() {
    let wasm = parse_rwat("(module (@rwat) (table $tab (@sym) 1 funcref))").unwrap();
    let printed = wasmprinter::print_bytes(&wasm).unwrap();
    assert!(printed.contains(r#"(@custom "linking" (after table) "\02\08\08\01\05\00\00\03tab")"#), "{printed}");
}

#[test]
fn test_tokenize_kinds_and_offsets() {
    let s = tokenize(r#"(module $m "a\41" @x 1 1.5 ;; c
    )"#);
    assert!(s.lex_error.is_none());
    let kinds: Vec<&TokenKind> = s.tokens.iter().map(|t| &t.kind).collect();
    assert_eq!(kinds[0], &TokenKind::LParen);
    assert_eq!(kinds[1], &TokenKind::Keyword("module".into()));
    assert_eq!(kinds[2], &TokenKind::Id(Ok("m".into())));
    assert_eq!(kinds[3], &TokenKind::String(b"aA".to_vec()));
    assert_eq!(kinds[4], &TokenKind::Annotation(Ok("x".into())));
    assert_eq!(kinds[5], &TokenKind::Integer);
    assert_eq!(kinds[6], &TokenKind::Float);
    assert_eq!(kinds[7], &TokenKind::RParen);
    assert_eq!(s.tokens[2].offset, 8);
    let s = tokenize("(module \"unterminated");
    assert!(s.lex_error.is_some());
}

#[test]
fn test_parse_reloc_wat_annotations() {
    let s = tokenize(
        r#"(module (@rwat) $m
             (import "a" "b" (func (@sym (name "x"))))
             (func $f (import "a" "c"))
             (table $t (@sym) 1 funcref)
             (func $g (@sym) call 0 (@reloc)))"#,
    );
    let rwat = parse_reloc_wat(&s).unwrap();
    assert_eq!(rwat.import_annotations.len(), 2);
    assert_eq!(rwat.import_annotations[0].syms, vec![SymbolAnnotation::Explicit("x".into())]);
    assert_eq!(rwat.import_annotations[1].syms, vec![SymbolAnnotation::Missing]);
    assert_eq!(rwat.func_annotations.len(), 1);
    assert_eq!(rwat.func_annotations[0].sym, SymbolAnnotation::Inferred);
    assert_eq!(rwat.func_annotations[0].reloc_spans.len(), 1);
    assert_eq!(rwat.table_annotations[0].sym, SymbolAnnotation::Inferred);
}

#[test]
fn test_cli_parse_args() {
    let args = parse_args(&strings(&["a.wat", "-c", "-o", "out.o", "-Wl,--no-entry,,--export=main", "b.wat"])).unwrap();
    assert_eq!(
        args,
        Args {
            inputs: strings(&["a.wat", "b.wat"]),
            output: Some("out.o".into()),
            compile: true,
            help: false,
            lld_args: strings(&["--no-entry", "--export=main"]),
        }
    );
    assert!(parse_args(&strings(&["--help"])).unwrap().help);
}

#[test]
fn test_cli_parse_args_errors() {
    assert_eq!(parse_args(&strings(&["-o"])).unwrap_err().message(), "missing value for `-o`");
    assert_eq!(
        parse_args(&strings(&["-"])).unwrap_err().message(),
        "stdin input is not supported; pass a wat file path"
    );
    assert_eq!(parse_args(&strings(&["-x"])).unwrap_err().message(), "unknown option `-x`");
}

#[test]
fn test_cli_decide() {
    let mut args = parse_args(&strings(&["a.wat", "b.wat", "-c", "-o", "x.o"])).unwrap();
    assert_eq!(decide(&args), Err(RunError::OutputForManyObjects));
    assert_eq!(RunError::OutputForManyObjects.message(), "cannot specify -o when generating multiple output files");
    args.output = None;
    assert_eq!(decide(&args), Ok(Action::CompileEach));
    args.compile = false;
    assert_eq!(decide(&args), Ok(Action::Link));
    args.inputs.clear();
    assert_eq!(decide(&args), Err(RunError::NoInputs));
    args.help = true;
    assert_eq!(decide(&args), Ok(Action::Usage));
    assert!(usage().starts_with("usage: rwat"));
}

#[test]
fn test_error_missing_rwat_on_empty_text() {
    for src in ["", "  ", ";; nothing here\n"] {
        let err = parse_rwat(src).unwrap_err();
        assert_eq!(err.kind, ErrorKind::MissingRwatAnnotation);
        assert_eq!(err.offset, src.len());
    }
}

#[test]
fn test_tokenize_multibyte_text() {
    let s = tokenize("(module \"é\" $x)");
    assert!(s.lex_error.is_none());
    assert_eq!(s.tokens.len(), 5);
}

#[test]
fn test_raw_sections_of_small_module() {
    // type section (1) with one `(func)` type, then function (3) and code (10).
    let wasm: Vec<u8> = vec![
        0x00, 0x61, 0x73, 0x6d, 0x01, 0x00, 0x00, 0x00, 0x01, 0x04, 0x01, 0x60, 0x00, 0x00, 0x03, 0x02, 0x01,
        0x00, 0x0a, 0x04, 0x01, 0x02, 0x00, 0x0b,
    ];
    let sections = rwat::binary::raw_sections(&wasm).unwrap();
    let got: Vec<(u8, u32, usize, usize)> = sections.iter().map(|s| (s.id, s.index, s.start, s.end)).collect();
    assert_eq!(got, vec![(1, 0, 10, 14), (3, 1, 16, 18), (10, 2, 20, 24)]);
}

#[test]
fn test_tag_symbols_are_refused() {
    let src = r#"(module (@rwat) (tag $t (@sym)))"#;
    let err = parse_rwat(src).unwrap_err();
    assert_eq!(err.kind, ErrorKind::TagSymbolUnsupported);
    assert_eq!(err.offset, src.find("tag").unwrap());
    let err = parse_rwat(r#"(module (@rwat) (import "env" "t" (tag $t (@sym))))"#).unwrap_err();
    assert_eq!(err.kind, ErrorKind::TagSymbolUnsupported);
    // A tag without `@sym` is fine.
    assert!(parse_rwat(r#"(module (@rwat) (tag $t))"#).is_ok());
}
