//! Reading the annotations of a text module: the module header's `(@rwat)`,
//! and per `import`, `func` and `table` field its `@sym` and `@reloc`
//! annotations, in source order.

use vstd::prelude::*;
use vstd::pervasive::arbitrary;

use vstd::string::StringSliceAdditionalSpecFns;

use crate::binary::{code_of_module, code_patchable, module_payloads, patch_code_section, raw_sections, sections_of};
use crate::code::{
    encode_reloc_code_section, first_unlisted, lemma_first_unlisted_none, reloc_entries,
    relocations_point_at_targets, relocations_typed,
};
use crate::emit::{emit_fits, emit_module, emitted_module, linking_fits, linking_payload, linking_section, patched_view};
use crate::encoder::module_header;
use crate::error::{Error, ErrorKind, Keyword};
use crate::lex::{lex_from, tokenize};
use crate::leb::leb_u32;
use crate::link::{build_link_info, empty_state, func_view, keys_map, spec_finish, spec_visit_fields, ModuleItem, Symbol};
use crate::symbols::{keys_distinct, law_symbol_table};
use crate::types::{DefinedFunc, PatchedCodeSection, RawSection};
use crate::wat::{
    check_text_module, custom_section_names, custom_names, encode_text, field_ok, is_item_of, is_object_section_name,
    module_items, parse_text, resolve_text, wast_encoding, wast_parsed, wast_resolved, FieldKind, FieldParts, WatShape,
};
use crate::link::{FuncAnnotation, RelocImports, RelocWat, TableAnnotation};
use crate::scan::{
    kind_at, lemma_primitives_advance, lemma_skip_until_rparen, spec_annotation, spec_expect_keyword,
    spec_expect_rparen, spec_id, spec_keyword, spec_lparen, spec_scan_func_reloc_spans,
    spec_scan_import_syms, spec_scan_item_sym, spec_skip_until_rparen, err_at,
};
use crate::text::str_eq;
use crate::token::{lemma_peek, spec_cur_span, spec_peek, Known, TokenKind, TokenStream};
use crate::types::SymbolAnnotation;

verus! {

/// The annotations of a module as plain sequences: per import field the
/// `@sym` of each item, per defined function its `@sym` and `@reloc`
/// offsets, per table field its `@sym`.
pub type AnnotationsView = (Seq<Seq<SymbolAnnotation>>, Seq<(SymbolAnnotation, Seq<usize>)>, Seq<SymbolAnnotation>);

pub open spec fn annotations_view(rwat: RelocWat) -> AnnotationsView {
    (
        rwat.import_annotations@.map_values(|r: RelocImports| r.syms@),
        rwat.func_annotations@.map_values(|f: FuncAnnotation| (f.sym, f.reloc_spans@)),
        rwat.table_annotations@.map_values(|t: TableAnnotation| t.sym),
    )
}

/// Outside the scans only `@rwat` is read; other annotations are skipped.
pub open spec fn base_known() -> Known {
    Known { sym: false, reloc: false }
}

pub open spec fn sym_known() -> Known {
    Known { sym: true, reloc: false }
}

pub open spec fn reloc_known() -> Known {
    Known { sym: false, reloc: true }
}

/// A `(` followed by a keyword at the cursor: the keyword, and the position
/// just after the `(`.
pub open spec fn spec_group_keyword(s: TokenStream, pos: int, k: Known) -> Result<Option<(String, int)>, Error> {
    match spec_lparen(s, pos, k) {
        Err(e) => Err(e),
        Ok(None) => Ok(None),
        Ok(Some(c)) => match spec_keyword(s, c, k) {
            Err(e) => Err(e),
            Ok(None) => Ok(None),
            Ok(Some((w, _))) => Ok(Some((w, c))),
        },
    }
}

/// Skips the inline `(export ...)` clauses at the cursor.
pub open spec fn spec_skip_exports(s: TokenStream, pos: int, k: Known) -> Result<int, Error>
    decreases s.tokens@.len() - pos,
{
    if pos < 0 || pos > s.tokens@.len() {
        Err(err_at(0, ErrorKind::Inconsistent))
    } else {
        match spec_group_keyword(s, pos, k) {
            Err(e) => Err(e),
            Ok(Some((w, c))) => if w@ == "export"@ {
                proof {
                    lemma_primitives_advance(s, pos, k);
                    lemma_skip_until_rparen(s, c, k);
                }
                match spec_skip_until_rparen(s, c, k) {
                    Err(e) => Err(e),
                    Ok(n) => spec_skip_exports(s, n, k),
                }
            } else {
                Ok(pos)
            },
            Ok(None) => Ok(pos),
        }
    }
}

pub proof fn lemma_skip_exports(s: TokenStream, pos: int, k: Known)
    requires
        0 <= pos <= s.tokens@.len(),
    ensures
        spec_skip_exports(s, pos, k) matches Ok(n) ==> pos <= n <= s.tokens@.len(),
    decreases s.tokens@.len() - pos,
{
    lemma_primitives_advance(s, pos, k);
    if let Ok(Some((w, c))) = spec_group_keyword(s, pos, k) {
        lemma_skip_until_rparen(s, c, k);
        if let Ok(n) = spec_skip_until_rparen(s, c, k) {
            lemma_skip_exports(s, n, k);
        }
    }
}

/// Whether the function whose `func` keyword is at the cursor is an inline
/// import: an optional identifier and inline exports, then `(import ...)`.
pub open spec fn spec_func_is_import(s: TokenStream, pos: int, k: Known) -> Result<bool, Error> {
    match spec_expect_keyword(s, pos, k, Keyword::Func) {
        Err(e) => Err(e),
        Ok(c) => match spec_id(s, c, k) {
            Err(e) => Err(e),
            Ok(o) => {
                let c2 = match o {
                    Some((_, n)) => n,
                    None => c,
                };
                match spec_skip_exports(s, c2, k) {
                    Err(e) => Err(e),
                    Ok(c3) => match spec_group_keyword(s, c3, k) {
                        Err(e) => Err(e),
                        Ok(Some((w, _))) => Ok(w@ == "import"@),
                        Ok(None) => Ok(false),
                    },
                }
            },
        },
    }
}

/// The annotations one field adds, from the field's keyword `word` at the
/// cursor on.
pub open spec fn spec_field(s: TokenStream, pos: int, word: Seq<char>, acc: AnnotationsView) -> Result<
    AnnotationsView,
    Error,
> {
    if word == "import"@ {
        match spec_scan_import_syms(s, pos, sym_known()) {
            Err(e) => Err(e),
            Ok((syms, _)) => Ok((acc.0.push(syms), acc.1, acc.2)),
        }
    } else if word == "func"@ {
        match spec_scan_item_sym(s, pos, sym_known(), Keyword::Func) {
            Err(e) => Err(e),
            Ok((sym, _)) => match spec_scan_func_reloc_spans(s, pos, reloc_known()) {
                Err(e) => Err(e),
                Ok((spans, _)) => match spec_func_is_import(s, pos, base_known()) {
                    Err(e) => Err(e),
                    Ok(true) => if spans.len() > 0 {
                        Err(err_at(spec_cur_span(s, pos, base_known()), ErrorKind::RelocOnImportedFunction))
                    } else {
                        Ok((acc.0.push(seq![sym]), acc.1, acc.2))
                    },
                    Ok(false) => Ok((acc.0, acc.1.push((sym, spans)), acc.2)),
                },
            },
        }
    } else if word == "table"@ {
        match spec_scan_item_sym(s, pos, sym_known(), Keyword::Table) {
            Err(e) => Err(e),
            Ok((sym, _)) => Ok((acc.0, acc.1, acc.2.push(sym))),
        }
    } else if word == "tag"@ {
        match spec_scan_item_sym(s, pos, sym_known(), Keyword::Tag) {
            Err(e) => Err(e),
            Ok((sym, _)) => if sym.spec_is_present() {
                Err(err_at(spec_cur_span(s, pos, base_known()), ErrorKind::TagSymbolUnsupported))
            } else {
                Ok(acc)
            },
        }
    } else {
        Ok(acc)
    }
}

/// The fields of the module from the cursor to the module's closing `)`:
/// the annotations gathered, and the position past that `)`.
pub open spec fn spec_fields(s: TokenStream, pos: int, acc: AnnotationsView) -> Result<(AnnotationsView, int), Error>
    decreases s.tokens@.len() - pos,
{
    let k = base_known();
    if pos < 0 || pos > s.tokens@.len() {
        Err(err_at(0, ErrorKind::Inconsistent))
    } else {
        match spec_peek(s, pos, k) {
            Err(e) => Err(e),
            Ok(None) => Err(err_at(spec_cur_span(s, pos, k), ErrorKind::ExpectedRParen)),
            Ok(Some(i)) => if kind_at(s, i) is RParen {
                Ok((acc, i + 1))
            } else {
                match spec_lparen(s, pos, k) {
                    Err(e) => Err(e),
                    Ok(None) => Err(err_at(spec_cur_span(s, pos, k), ErrorKind::ExpectedLParen)),
                    Ok(Some(c)) => match spec_keyword(s, c, k) {
                        Err(e) => Err(e),
                        Ok(kw) => {
                            let word = match kw {
                                Some((w, _)) => w@,
                                None => Seq::empty(),
                            };
                            match spec_field(s, c, word, acc) {
                                Err(e) => Err(e),
                                Ok(acc2) => match spec_skip_until_rparen(s, c, k) {
                                    Err(e) => Err(e),
                                    Ok(n) => {
                                        proof {
                                            lemma_primitives_advance(s, pos, k);
                                            lemma_skip_until_rparen(s, c, k);
                                        }
                                        spec_fields(s, n, acc2)
                                    },
                                },
                            }
                        },
                    },
                }
            },
        }
    }
}

pub proof fn lemma_fields(s: TokenStream, pos: int, acc: AnnotationsView)
    requires
        0 <= pos <= s.tokens@.len(),
    ensures
        spec_fields(s, pos, acc) matches Ok((_, n)) ==> pos < n <= s.tokens@.len(),
    decreases s.tokens@.len() - pos,
{
    let k = base_known();
    lemma_peek(s, pos, k);
    lemma_primitives_advance(s, pos, k);
    if let Ok(Some(c)) = spec_lparen(s, pos, k) {
        lemma_skip_until_rparen(s, c, k);
        if let Ok(kw) = spec_keyword(s, c, k) {
            let word = match kw {
                Some((w, _)) => w@,
                None => Seq::empty(),
            };
            if let Ok(acc2) = spec_field(s, c, word, acc) {
                if let Ok(n) = spec_skip_until_rparen(s, c, k) {
                    lemma_fields(s, n, acc2);
                }
            }
        }
    }
}

pub open spec fn no_annotations() -> AnnotationsView {
    (seq![], seq![], seq![])
}

/// After the `module` keyword (at the cursor): the `(@rwat)` header, an
/// optional identifier, and the fields.
pub open spec fn spec_module_body(s: TokenStream, pos: int) -> Result<(AnnotationsView, int), Error> {
    let k = base_known();
    let missing = Err(err_at(spec_cur_span(s, pos, k), ErrorKind::MissingRwatAnnotation));
    match spec_expect_keyword(s, pos, k, Keyword::Module) {
        Err(e) => Err(e),
        Ok(c1) => match spec_lparen(s, c1, k) {
            Err(e) => Err(e),
            Ok(None) => missing,
            Ok(Some(c2)) => match spec_annotation(s, c2, k) {
                Err(e) => Err(e),
                Ok(None) => missing,
                Ok(Some((name, c3))) => if name@ != "rwat"@ {
                    missing
                } else {
                    match spec_expect_rparen(s, c3, k) {
                        Err(e) => Err(e),
                        Ok(c4) => match spec_id(s, c4, k) {
                            Err(e) => Err(e),
                            Ok(Some((_, c5))) => spec_fields(s, c5, no_annotations()),
                            Ok(None) => spec_fields(s, c4, no_annotations()),
                        },
                    }
                },
            },
        },
    }
}

pub proof fn lemma_module_body(s: TokenStream, pos: int)
    requires
        0 <= pos <= s.tokens@.len(),
    ensures
        spec_module_body(s, pos) matches Ok((_, n)) ==> pos < n <= s.tokens@.len(),
{
    let k = base_known();
    lemma_primitives_advance(s, pos, k);
    if let Ok(c1) = spec_expect_keyword(s, pos, k, Keyword::Module) {
        lemma_primitives_advance(s, c1, k);
        if let Ok(Some(c2)) = spec_lparen(s, c1, k) {
            lemma_primitives_advance(s, c2, k);
            if let Ok(Some((_, c3))) = spec_annotation(s, c2, k) {
                lemma_primitives_advance(s, c3, k);
                if let Ok(c4) = spec_expect_rparen(s, c3, k) {
                    lemma_primitives_advance(s, c4, k);
                    lemma_fields(s, c4, no_annotations());
                    if let Ok(Some((_, c5))) = spec_id(s, c4, k) {
                        lemma_fields(s, c5, no_annotations());
                    }
                }
            }
        }
    }
}

/// Nothing may follow what was read.
pub open spec fn spec_finish_text(s: TokenStream, pos: int, acc: AnnotationsView) -> Result<AnnotationsView, Error> {
    match spec_peek(s, pos, base_known()) {
        Err(e) => Err(e),
        Ok(None) => Ok(acc),
        Ok(Some(_)) => Err(err_at(spec_cur_span(s, pos, base_known()), ErrorKind::ExtraTokens)),
    }
}

/// The annotations of a text: where it is a `(module ...)`, those of its
/// fields. Any other text is refused: with tokens left over, for them; with
/// no tokens at all, for the missing `(@rwat)` header.
#[verifier::opaque]
pub open spec fn spec_parse_reloc_wat(s: TokenStream) -> Result<AnnotationsView, Error> {
    match spec_group_keyword(s, 0, base_known()) {
        Err(e) => Err(e),
        Ok(Some((w, c))) => if w@ == "module"@ {
            match spec_module_body(s, c) {
                Err(e) => Err(e),
                Ok((acc, n)) => spec_finish_text(s, n, acc),
            }
        } else {
            spec_finish_text(s, 0, no_annotations())
        },
        Ok(None) => match spec_finish_text(s, 0, no_annotations()) {
            Err(e) => Err(e),
            Ok(_) => Err(err_at(spec_cur_span(s, 0, base_known()), ErrorKind::MissingRwatAnnotation)),
        },
    }
}


pub fn base() -> (k: Known)
    ensures
        k == base_known(),
{
    Known { sym: false, reloc: false }
}

fn group_keyword(s: &TokenStream, pos: usize, k: Known) -> (res: Result<Option<(usize, usize)>, Error>)
    requires
        s.well_formed(),
        pos <= s.tokens.len(),
    ensures
        match spec_group_keyword(*s, pos as int, k) {
            Ok(Some((w, c))) => res matches Ok(Some((i, c2))) && c2 == c && i < s.tokens.len()
                && kind_at(*s, i as int) == TokenKind::Keyword(w) && pos < c <= s.tokens.len(),
            Ok(None) => res == Ok::<Option<(usize, usize)>, Error>(None),
            Err(e) => res == Err::<Option<(usize, usize)>, Error>(e),
        },
{
    proof {
        lemma_primitives_advance(*s, pos as int, k);
    }
    let c = match s.lparen(pos, k) {
        Err(e) => return Err(e),
        Ok(None) => return Ok(None),
        Ok(Some(c)) => c,
    };
    proof {
        lemma_primitives_advance(*s, c as int, k);
    }
    match s.keyword(c, k) {
        Err(e) => Err(e),
        Ok(None) => Ok(None),
        Ok(Some(i)) => Ok(Some((i, c))),
    }
}

/// Whether the keyword token at `i` reads `word`.
fn keyword_is(s: &TokenStream, i: usize, word: &str) -> (b: bool)
    requires
        i < s.tokens.len(),
        kind_at(*s, i as int) is Keyword,
    ensures
        b == (kind_at(*s, i as int)->Keyword_0@ == word@),
{
    match &s.tokens[i].kind {
        TokenKind::Keyword(w) => str_eq(w.as_str(), word),
        _ => false,
    }
}

fn skip_exports(s: &TokenStream, pos: usize, k: Known) -> (res: Result<usize, Error>)
    requires
        s.well_formed(),
        pos <= s.tokens.len(),
    ensures
        match spec_skip_exports(*s, pos as int, k) {
            Ok(n) => res == Ok::<usize, Error>(n as usize),
            Err(e) => res == Err::<usize, Error>(e),
        },
        res matches Ok(n) ==> pos <= n <= s.tokens.len(),
{
    let mut p = pos;
    proof {
        lemma_skip_exports(*s, pos as int, k);
    }
    loop
        invariant
            s.well_formed(),
            pos <= p <= s.tokens.len(),
            spec_skip_exports(*s, pos as int, k) == spec_skip_exports(*s, p as int, k),
        decreases s.tokens.len() - p,
    {
        proof {
            lemma_skip_exports(*s, p as int, k);
        }
        let (i, c) = match group_keyword(s, p, k) {
            Err(e) => return Err(e),
            Ok(None) => return Ok(p),
            Ok(Some(r)) => r,
        };
        if !keyword_is(s, i, "export") {
            return Ok(p);
        }
        proof {
            lemma_skip_until_rparen(*s, c as int, k);
        }
        p = match s.skip_until_rparen(c, k) {
            Err(e) => return Err(e),
            Ok(n) => n,
        };
    }
}

fn func_is_import(s: &TokenStream, pos: usize, k: Known) -> (res: Result<bool, Error>)
    requires
        s.well_formed(),
        pos <= s.tokens.len(),
    ensures
        res == spec_func_is_import(*s, pos as int, k),
{
    proof {
        lemma_primitives_advance(*s, pos as int, k);
    }
    let c = match s.expect_keyword(pos, k, Keyword::Func) {
        Err(e) => return Err(e),
        Ok(c) => c,
    };
    proof {
        lemma_primitives_advance(*s, c as int, k);
    }
    let c2 = match s.id(c, k) {
        Err(e) => return Err(e),
        Ok(Some(n)) => n,
        Ok(None) => c,
    };
    proof {
        lemma_skip_exports(*s, c2 as int, k);
    }
    let c3 = match skip_exports(s, c2, k) {
        Err(e) => return Err(e),
        Ok(c3) => c3,
    };
    match group_keyword(s, c3, k) {
        Err(e) => Err(e),
        Ok(Some((i, _))) => Ok(keyword_is(s, i, "import")),
        Ok(None) => Ok(false),
    }
}

/// The field keywords are distinct words.
proof fn lemma_field_words()
    ensures
        "import"@ != "func"@,
        "import"@ != "table"@,
        "func"@ != "table"@,
        "tag"@ != "import"@,
        "tag"@ != "func"@,
        "tag"@ != "table"@,
        Seq::<char>::empty() != "import"@,
        Seq::<char>::empty() != "func"@,
        Seq::<char>::empty() != "table"@,
        Seq::<char>::empty() != "tag"@,
{
    reveal_strlit("import");
    reveal_strlit("func");
    reveal_strlit("table");
    reveal_strlit("tag");
    assert("tag"@.len() == 3);
    assert("import"@.len() == 6);
    assert("func"@.len() == 4);
    assert("table"@.len() == 5);
}

fn import_field(s: &TokenStream, pos: usize, rwat: &mut RelocWat) -> (res: Result<(), Error>)
    requires
        s.well_formed(),
        pos <= s.tokens.len(),
    ensures
        match spec_field(*s, pos as int, "import"@, annotations_view(*old(rwat))) {
            Ok(acc) => res is Ok && annotations_view(*final(rwat)) == acc,
            Err(e) => res == Err::<(), Error>(e),
        },
{
    let ghost acc = annotations_view(*rwat);
    let (syms, _) = match s.scan_import_syms(pos, Known { sym: true, reloc: false }) {
        Err(e) => return Err(e),
        Ok(r) => r,
    };
    let ghost syms_view = syms@;
    rwat.import_annotations.push(RelocImports { syms });
    proof {
        assert(annotations_view(*rwat).0 =~= acc.0.push(syms_view));
        assert(annotations_view(*rwat).1 =~= acc.1);
        assert(annotations_view(*rwat).2 =~= acc.2);
    }
    Ok(())
}

fn func_field(s: &TokenStream, pos: usize, rwat: &mut RelocWat) -> (res: Result<(), Error>)
    requires
        s.well_formed(),
        pos <= s.tokens.len(),
    ensures
        match spec_field(*s, pos as int, "func"@, annotations_view(*old(rwat))) {
            Ok(acc) => res is Ok && annotations_view(*final(rwat)) == acc,
            Err(e) => res == Err::<(), Error>(e),
        },
{
    let ghost acc = annotations_view(*rwat);
    proof {
        lemma_field_words();
    }
    let (sym, _) = match s.scan_func_sym(pos, Known { sym: true, reloc: false }) {
        Err(e) => return Err(e),
        Ok(r) => r,
    };
    let (spans, _) = match s.scan_func_reloc_spans(pos, Known { sym: false, reloc: true }) {
        Err(e) => return Err(e),
        Ok(r) => r,
    };
    let imported = match func_is_import(s, pos, base()) {
        Err(e) => return Err(e),
        Ok(b) => b,
    };
    if imported {
        if spans.len() > 0 {
            return Err(Error::new(s.cur_span(pos, base()), ErrorKind::RelocOnImportedFunction));
        }
        let mut syms: Vec<SymbolAnnotation> = Vec::new();
        syms.push(sym);
        let ghost syms_view = syms@;
        rwat.import_annotations.push(RelocImports { syms });
        proof {
            assert(annotations_view(*rwat).0 =~= acc.0.push(syms_view));
            assert(annotations_view(*rwat).1 =~= acc.1);
            assert(annotations_view(*rwat).2 =~= acc.2);
        }
    } else {
        let ghost spans_view = spans@;
        rwat.func_annotations.push(FuncAnnotation { sym, reloc_spans: spans });
        proof {
            assert(annotations_view(*rwat).0 =~= acc.0);
            assert(annotations_view(*rwat).1 =~= acc.1.push((sym, spans_view)));
            assert(annotations_view(*rwat).2 =~= acc.2);
        }
    }
    Ok(())
}

/// A `tag` field: tags get no symbols (the symbol table of `wasm-encoder`
/// has no entry for them), so `@sym` on one is refused.
fn tag_field(s: &TokenStream, pos: usize) -> (res: Result<(), Error>)
    requires
        s.well_formed(),
        pos <= s.tokens.len(),
    ensures
        forall|acc: AnnotationsView|
            match #[trigger] spec_field(*s, pos as int, "tag"@, acc) {
                Ok(acc2) => res is Ok && acc2 == acc,
                Err(e) => res == Err::<(), Error>(e),
            },
{
    proof {
        lemma_field_words();
    }
    let (sym, _) = match s.scan_tag_sym(pos, Known { sym: true, reloc: false }) {
        Err(e) => return Err(e),
        Ok(r) => r,
    };
    if sym.is_present() {
        return Err(Error::new(s.cur_span(pos, base()), ErrorKind::TagSymbolUnsupported));
    }
    Ok(())
}

fn table_field(s: &TokenStream, pos: usize, rwat: &mut RelocWat) -> (res: Result<(), Error>)
    requires
        s.well_formed(),
        pos <= s.tokens.len(),
    ensures
        match spec_field(*s, pos as int, "table"@, annotations_view(*old(rwat))) {
            Ok(acc) => res is Ok && annotations_view(*final(rwat)) == acc,
            Err(e) => res == Err::<(), Error>(e),
        },
{
    let ghost acc = annotations_view(*rwat);
    proof {
        reveal_strlit("func");
        reveal_strlit("import");
        lemma_field_words();
    }
    let (sym, _) = match s.scan_table_sym(pos, Known { sym: true, reloc: false }) {
        Err(e) => return Err(e),
        Ok(r) => r,
    };
    rwat.table_annotations.push(TableAnnotation { sym });
    proof {
        assert(annotations_view(*rwat).0 =~= acc.0);
        assert(annotations_view(*rwat).1 =~= acc.1);
        assert(annotations_view(*rwat).2 =~= acc.2.push(sym));
    }
    Ok(())
}

/// Adds the annotations of the field whose keyword is at `pos` (its token at
/// `i`, if it is a keyword) to `rwat`.
fn field(s: &TokenStream, pos: usize, kw: Option<usize>, rwat: &mut RelocWat) -> (res: Result<(), Error>)
    requires
        s.well_formed(),
        pos <= s.tokens.len(),
        kw matches Some(i) ==> i < s.tokens.len() && kind_at(*s, i as int) is Keyword,
    ensures
        ({
            let word = match kw {
                Some(i) => kind_at(*s, i as int)->Keyword_0@,
                None => Seq::empty(),
            };
            match spec_field(*s, pos as int, word, annotations_view(*old(rwat))) {
                Ok(acc) => res is Ok && annotations_view(*final(rwat)) == acc,
                Err(e) => res == Err::<(), Error>(e),
            }
        }),
{
    proof {
        lemma_field_words();
    }
    let i = match kw {
        Some(i) => i,
        None => return Ok(()),
    };
    if keyword_is(s, i, "import") {
        import_field(s, pos, rwat)
    } else if keyword_is(s, i, "func") {
        func_field(s, pos, rwat)
    } else if keyword_is(s, i, "table") {
        table_field(s, pos, rwat)
    } else if keyword_is(s, i, "tag") {
        tag_field(s, pos)
    } else {
        Ok(())
    }
}

/// The fields from `pos` to the module's closing `)`.
fn fields(s: &TokenStream, pos: usize, rwat: &mut RelocWat) -> (res: Result<usize, Error>)
    requires
        s.well_formed(),
        pos <= s.tokens.len(),
    ensures
        match spec_fields(*s, pos as int, annotations_view(*old(rwat))) {
            Ok((acc, n)) => res == Ok::<usize, Error>(n as usize) && annotations_view(*final(rwat)) == acc,
            Err(e) => res == Err::<usize, Error>(e),
        },
{
    let k = base();
    let mut p = pos;
    let ghost acc0 = annotations_view(*rwat);
    proof {
        lemma_fields(*s, pos as int, acc0);
    }
    loop
        invariant
            s.well_formed(),
            k == base_known(),
            acc0 == annotations_view(*old(rwat)),
            pos <= p <= s.tokens.len(),
            spec_fields(*s, pos as int, acc0) == spec_fields(*s, p as int, annotations_view(*rwat)),
        decreases s.tokens.len() - p,
    {
        proof {
            lemma_peek(*s, p as int, k);
            lemma_primitives_advance(*s, p as int, k);
            lemma_fields(*s, p as int, annotations_view(*rwat));
        }
        let i = match s.peek(p, k) {
            Err(e) => return Err(e),
            Ok(None) => return Err(Error::new(s.cur_span(p, k), ErrorKind::ExpectedRParen)),
            Ok(Some(i)) => i,
        };
        if matches!(s.tokens[i].kind, TokenKind::RParen) {
            return Ok(i + 1);
        }
        let c = match s.lparen(p, k) {
            Err(e) => return Err(e),
            Ok(None) => return Err(Error::new(s.cur_span(p, k), ErrorKind::ExpectedLParen)),
            Ok(Some(c)) => c,
        };
        proof {
            lemma_primitives_advance(*s, c as int, k);
            lemma_skip_until_rparen(*s, c as int, k);
        }
        let kw = match s.keyword(c, k) {
            Err(e) => return Err(e),
            Ok(kw) => kw,
        };
        match field(s, c, kw, rwat) {
            Err(e) => return Err(e),
            Ok(()) => {},
        }
        p = match s.skip_until_rparen(c, k) {
            Err(e) => return Err(e),
            Ok(n) => n,
        };
    }
}

fn module_body(s: &TokenStream, pos: usize, rwat: &mut RelocWat) -> (res: Result<usize, Error>)
    requires
        s.well_formed(),
        pos <= s.tokens.len(),
        annotations_view(*old(rwat)) == no_annotations(),
    ensures
        match spec_module_body(*s, pos as int) {
            Ok((acc, n)) => res == Ok::<usize, Error>(n as usize) && annotations_view(*final(rwat)) == acc,
            Err(e) => res == Err::<usize, Error>(e),
        },
{
    let k = base();
    proof {
        lemma_primitives_advance(*s, pos as int, k);
    }
    let c1 = match s.expect_keyword(pos, k, Keyword::Module) {
        Err(e) => return Err(e),
        Ok(c1) => c1,
    };
    proof {
        lemma_primitives_advance(*s, c1 as int, k);
    }
    let c2 = match s.lparen(c1, k) {
        Err(e) => return Err(e),
        Ok(None) => return Err(Error::new(s.cur_span(pos, k), ErrorKind::MissingRwatAnnotation)),
        Ok(Some(c2)) => c2,
    };
    proof {
        lemma_primitives_advance(*s, c2 as int, k);
    }
    let i = match s.annotation(c2, k) {
        Err(e) => return Err(e),
        Ok(None) => return Err(Error::new(s.cur_span(pos, k), ErrorKind::MissingRwatAnnotation)),
        Ok(Some(i)) => i,
    };
    let is_rwat = match &s.tokens[i].kind {
        TokenKind::Annotation(Ok(name)) => str_eq(name.as_str(), "rwat"),
        _ => false,
    };
    if !is_rwat {
        return Err(Error::new(s.cur_span(pos, k), ErrorKind::MissingRwatAnnotation));
    }
    let c3 = i + 1;
    proof {
        lemma_primitives_advance(*s, c3 as int, k);
    }
    let c4 = match s.expect_rparen(c3, k) {
        Err(e) => return Err(e),
        Ok(c4) => c4,
    };
    proof {
        lemma_primitives_advance(*s, c4 as int, k);
    }
    let c5 = match s.id(c4, k) {
        Err(e) => return Err(e),
        Ok(Some(c5)) => c5,
        Ok(None) => c4,
    };
    proof {
        lemma_fields(*s, c5 as int, no_annotations());
    }
    fields(s, c5, rwat)
}

/// The annotations of the text whose tokens are `s`.
pub fn parse_reloc_wat(s: &TokenStream) -> (res: Result<RelocWat, Error>)
    requires
        s.well_formed(),
    ensures
        match spec_parse_reloc_wat(*s) {
            Ok(acc) => res matches Ok(rwat) && annotations_view(rwat) == acc,
            Err(e) => res == Err::<RelocWat, Error>(e),
        },
{
    proof {
        reveal(spec_parse_reloc_wat);
    }
    let mut rwat = RelocWat {
        import_annotations: Vec::new(),
        func_annotations: Vec::new(),
        table_annotations: Vec::new(),
    };
    proof {
        assert(annotations_view(rwat).0 =~= Seq::<Seq<SymbolAnnotation>>::empty());
        assert(annotations_view(rwat).1 =~= Seq::<(SymbolAnnotation, Seq<usize>)>::empty());
        assert(annotations_view(rwat).2 =~= Seq::<SymbolAnnotation>::empty());
        assert(annotations_view(rwat) == no_annotations());
    }
    let start: usize = 0;
    let header = match group_keyword(s, start, base()) {
        Err(e) => return Err(e),
        Ok(h) => h,
    };
    let has_header = header.is_some();
    let module_at = match header {
        Some((i, c)) => if keyword_is(s, i, "module") {
            Some(c)
        } else {
            None
        },
        None => None,
    };
    let end = match module_at {
        Some(c) => {
            proof {
                lemma_module_body(*s, c as int);
            }
            match module_body(s, c, &mut rwat) {
                Err(e) => return Err(e),
                Ok(n) => n,
            }
        },
        None => start,
    };
    match s.peek(end, base()) {
        Err(e) => Err(e),
        Ok(None) => if has_header {
            Ok(rwat)
        } else {
            Err(Error::new(s.cur_span(start, base()), ErrorKind::MissingRwatAnnotation))
        },
        Ok(Some(_)) => Err(Error::new(s.cur_span(end, base()), ErrorKind::ExtraTokens)),
    }
}

/// Whether `s` is the token stream of `text`.
pub open spec fn is_token_stream_of(s: TokenStream, text: &str) -> bool {
    &&& s.well_formed()
    &&& s.end == text.spec_bytes().len()
    &&& s.tokens@ == lex_from(text@, 0, text.spec_bytes().len() as int).0
    &&& s.lex_error == lex_from(text@, 0, text.spec_bytes().len() as int).1
}

/// The payload of the `linking` section for `symbols`, where there is any.
pub open spec fn linking_payload_of(symbols: Seq<Symbol>) -> Option<Seq<u8>> {
    if symbols.len() == 0 {
        None
    } else {
        Some(linking_payload(symbols))
    }
}

/// The payload of `reloc.CODE` for a patched code section, where it has any
/// relocation: the section's index, the count, and per relocation its type,
/// its offset and the symbol index of its target.
pub open spec fn reloc_payload(code: Option<PatchedCodeSection>, symbols: Seq<Symbol>) -> Option<Seq<u8>> {
    match code {
        Some(c) => if c.relocations@.len() == 0 {
            None
        } else {
            Some(
                leb_u32(c.section_index as nat) + leb_u32(c.relocations@.len()) + reloc_entries(
                    c.relocations@,
                    keys_map(symbols),
                ),
            )
        },
        None => None,
    }
}

/// What an object is made of: the sections of the encoded module `wasm`
/// (laid out as `sections`) with the code section replaced by the patched
/// one, a `linking` section for `symbols` and a `reloc.CODE` section for the
/// patched code. No two symbols stand for the same item, every relocation
/// target has a symbol, and every relocation points at the padded 5-byte
/// index of its target and has the relocation type of its target's kind.
pub open spec fn is_rwat_output(
    out: Seq<u8>,
    wasm: Seq<u8>,
    sections: Seq<RawSection>,
    code: Option<PatchedCodeSection>,
    symbols: Seq<Symbol>,
) -> bool {
    &&& out == emitted_module(
        wasm,
        sections,
        patched_view(code),
        linking_payload_of(symbols),
        reloc_payload(code, symbols),
    )
    &&& keys_distinct(symbols)
    &&& code matches Some(c) ==> {
        &&& relocations_point_at_targets(c.payload@, c.relocations@)
        &&& relocations_typed(c.relocations@)
        &&& forall|i: int|
            0 <= i < c.relocations@.len() ==> keys_map(symbols).contains_key(#[trigger] c.relocations@[i].target)
    }
}

/// The parsed text is a module of fields with none of the custom sections
/// that the library emits itself.
pub open spec fn module_accepted(shape: WatShape, kinds: Seq<FieldKind>) -> bool {
    &&& shape is TextModule
    &&& forall|i: int| 0 <= i < custom_names(kinds).len() ==> !is_object_section_name(#[trigger] custom_names(kinds)[i])
}

/// `items` are what the library reads of the fields read as `parts`.
pub open spec fn items_of_parts(items: Seq<ModuleItem>, parts: Seq<FieldParts>) -> bool {
    &&& items.len() == parts.len()
    &&& forall|k: int| 0 <= k < parts.len() ==> is_item_of(#[trigger] items[k], parts[k])
}

/// `wast` parses `wat` to a module of fields with none of the custom
/// sections that the library emits itself.
pub open spec fn parse_accepted(wat: &str) -> bool {
    wast_parsed(wat@) matches Ok((shape, kinds)) && module_accepted(shape, kinds)
}

/// The relocations of the code section can be numbered, and every target
/// has a symbol.
pub open spec fn relocs_listed(code: Option<PatchedCodeSection>, symbols: Seq<Symbol>) -> bool {
    match code {
        Some(c) => c.relocations@.len() <= u32::MAX && first_unlisted(c.relocations@, keys_map(symbols)) is None,
        None => true,
    }
}

/// How an object was made from a text: its tokens, the annotations read
/// from them, the module's items as the outside parser handed them over, the
/// defined functions gathered from both, the plain encoding and its
/// sections, the patched code section and the symbol table.
pub struct RwatTrace {
    pub tokens: TokenStream,
    pub annotations: RelocWat,
    pub parts: Seq<FieldParts>,
    pub items: Seq<ModuleItem>,
    pub funcs: Seq<DefinedFunc>,
    pub wasm: Seq<u8>,
    pub sections: Seq<RawSection>,
    pub code: Option<PatchedCodeSection>,
    pub symbols: Seq<Symbol>,
}

impl RwatTrace {
    /// The annotation pass on the trace's tokens gives its annotations.
    pub open spec fn annotated(self) -> bool {
        spec_parse_reloc_wat(self.tokens) == Ok::<AnnotationsView, Error>(annotations_view(self.annotations))
    }

    /// `wast` parses `wat` to a module it accepts, and resolves it to fields
    /// whose function bodies have every immediate they need, read as the
    /// trace's parts.
    pub open spec fn resolved(self, wat: &str) -> bool {
        &&& parse_accepted(wat)
        &&& wast_resolved(wat@) == Ok::<Seq<FieldParts>, Error>(self.parts)
        &&& forall|k: int| 0 <= k < self.parts.len() ==> field_ok(#[trigger] self.parts[k])
    }

    /// The annotations and the items decide the trace's symbols and defined
    /// functions.
    pub open spec fn linked(self) -> bool {
        spec_visit_fields(
            empty_state(),
            self.items,
            self.annotations.import_annotations@,
            self.annotations.func_annotations@,
            self.annotations.table_annotations@,
        ) matches Some(st) && spec_finish(st) == Ok::<Seq<Symbol>, Error>(self.symbols)
            && self.funcs.map_values(|f: DefinedFunc| func_view(f)) == st.defined_funcs
    }

    /// The trace's encoding is what `wast` encodes `wat` to, and its sections
    /// are those `wasmparser` finds in it.
    pub open spec fn encoded(self, wat: &str) -> bool {
        &&& wast_encoding(wat@) == Ok::<Seq<u8>, Error>(self.wasm)
        &&& module_payloads(self.wasm) matches Ok(ps) && sections_of(ps, self.wasm.len() as int) == Ok::<
            Seq<RawSection>,
            Error,
        >(self.sections)
    }

    /// Every component of the trace is what the steps give for `wat`, as far
    /// as the steps before it succeed.
    pub open spec fn agrees(self, wat: &str) -> bool {
        &&& is_token_stream_of(self.tokens, wat)
        &&& spec_parse_reloc_wat(self.tokens) is Ok ==> self.annotated()
        &&& self.annotated() && parse_accepted(wat) && wast_resolved(wat@) is Ok ==> wast_resolved(wat@) == Ok::<
            Seq<FieldParts>,
            Error,
        >(self.parts)
        &&& self.annotated() && self.resolved(wat) ==> items_of_parts(self.items, self.parts)
        &&& self.annotated() && self.resolved(wat) && (spec_visit_fields(
            empty_state(),
            self.items,
            self.annotations.import_annotations@,
            self.annotations.func_annotations@,
            self.annotations.table_annotations@,
        ) matches Some(st) && spec_finish(st) is Ok) ==> self.linked()
        &&& self.annotated() && self.resolved(wat) && self.linked() && wast_encoding(wat@) is Ok ==> wast_encoding(
            wat@,
        ) == Ok::<Seq<u8>, Error>(self.wasm)
        &&& self.annotated() && self.resolved(wat) && self.linked() && wast_encoding(wat@) == Ok::<Seq<u8>, Error>(
            self.wasm,
        ) && (module_payloads(self.wasm) matches Ok(ps) && sections_of(ps, self.wasm.len() as int) is Ok)
            ==> self.encoded(wat)
        &&& self.annotated() && self.resolved(wat) && self.linked() && self.encoded(wat) && code_patchable(
            self.wasm,
            self.sections,
            self.funcs,
        ) ==> code_of_module(self.code, self.wasm, self.sections, self.funcs)
    }

    /// Every step succeeds along the trace: the annotation pass, `wast`'s
    /// parse and resolution, reading the fields, the symbol table, the
    /// encoding and its sections, patching the code section, and the
    /// `linking`, `reloc.CODE` and output sections fit their sizes.
    pub open spec fn all_ok(self, wat: &str) -> bool {
        &&& self.annotated()
        &&& self.resolved(wat)
        &&& self.linked()
        &&& self.encoded(wat)
        &&& code_patchable(self.wasm, self.sections, self.funcs)
        &&& self.symbols.len() > 0 ==> linking_fits(self.symbols)
        &&& (self.code matches Some(c) && c.relocations@.len() > 0) ==> relocs_listed(self.code, self.symbols)
        &&& emit_fits(
            self.wasm,
            self.sections,
            patched_view(self.code),
            linking_payload_of(self.symbols),
            reloc_payload(self.code, self.symbols),
        )
    }

    /// `out` is the object made from `wat` along this trace: the annotations
    /// are those of `wat`'s tokens; the symbols and the defined functions are
    /// those that the annotations and the items decide; the plain encoding is
    /// what `wast` encodes `wat` to, and its sections are those `wasmparser`
    /// finds in it; the code section is the module's first one, read back
    /// and patched for those functions; and `out` is laid out as
    /// `is_rwat_output` says.
    pub open spec fn explains(self, wat: &str, out: Seq<u8>) -> bool {
        &&& is_token_stream_of(self.tokens, wat)
        &&& spec_parse_reloc_wat(self.tokens) == Ok::<AnnotationsView, Error>(annotations_view(self.annotations))
        &&& wast_parsed(wat@) matches Ok((shape, kinds)) && module_accepted(shape, kinds)
        &&& wast_resolved(wat@) == Ok::<Seq<FieldParts>, Error>(self.parts)
        &&& items_of_parts(self.items, self.parts)
        &&& spec_visit_fields(
            empty_state(),
            self.items,
            self.annotations.import_annotations@,
            self.annotations.func_annotations@,
            self.annotations.table_annotations@,
        ) matches Some(st) && spec_finish(st) == Ok::<Seq<Symbol>, Error>(self.symbols)
            && self.funcs.map_values(|f: DefinedFunc| func_view(f)) == st.defined_funcs
        &&& wast_encoding(wat@) == Ok::<Seq<u8>, Error>(self.wasm)
        &&& module_payloads(self.wasm) matches Ok(ps) && sections_of(ps, self.wasm.len() as int) == Ok::<
            Seq<RawSection>,
            Error,
        >(self.sections)
        &&& code_of_module(self.code, self.wasm, self.sections, self.funcs)
        &&& is_rwat_output(out, self.wasm, self.sections, self.code, self.symbols)
    }
}

/// A trace that agrees with `wat` and along which some step fails shows that
/// not every agreeing trace succeeds.
proof fn lemma_refuted(t: RwatTrace, wat: &str)
    requires
        t.agrees(wat),
        !t.all_ok(wat),
    ensures
        !(forall|t2: RwatTrace| #[trigger] t2.agrees(wat) ==> t2.all_ok(wat)),
{
}

/// Parses annotated wat into a relocatable wasm object.
///
/// The text must be a module whose header carries `(@rwat)`. Its `@sym`
/// and `@reloc` annotations are read first, and where they are malformed
/// that is the error; then the text is parsed, resolved and encoded as plain
/// wat, the immediates that `@reloc` marks are widened to 5-byte LEB128
/// numbers, and the `linking` and `reloc.CODE` custom sections are added
/// after the last non-custom section. Tags get no symbols (the symbol table
/// of `wasm-encoder` has no entry for them): `@sym` on a tag, and a
/// relocation against one, are refused. The result is `Ok` whenever every
/// step succeeds along every trace that agrees with the text.
#[verifier::spinoff_prover]
#[verifier::rlimit(100)]
pub fn parse_rwat(wat: &str) -> (res: Result<Vec<u8>, Error>)
    requires
        wat.spec_bytes().len() < usize::MAX,
        wat.spec_bytes().len() <= u32::MAX,
    ensures
        exists|s: TokenStream|
            is_token_stream_of(s, wat) && match #[trigger] spec_parse_reloc_wat(s) {
                Err(e) => res == Err::<Vec<u8>, Error>(e),
                Ok(_) => true,
            },
        res matches Ok(out) ==> out@.len() >= 8 && out@.subrange(0, 8) == module_header(),
        res matches Ok(out) ==> exists|t: RwatTrace| #[trigger] t.explains(wat, out@),
        (forall|t: RwatTrace| #[trigger] t.agrees(wat) ==> t.all_ok(wat)) ==> res is Ok,
{
    let tokens = tokenize(wat);
    assert(is_token_stream_of(tokens, wat));
    let rwat = match parse_reloc_wat(&tokens) {
        Err(e) => {
            proof {
                let t = RwatTrace { tokens, ..arbitrary() };
                lemma_refuted(t, wat);
            }
            return Err(e);
        },
        Ok(r) => r,
    };
    let ghost t0 = RwatTrace { tokens, annotations: rwat, ..arbitrary() };
    assert(t0.annotated());
    let (shape, kinds) = match parse_text(wat) {
        Err(e) => {
            proof {
                lemma_refuted(t0, wat);
            }
            return Err(e);
        },
        Ok(r) => r,
    };
    let names = custom_section_names(&kinds);
    match check_text_module(shape, &names) {
        Err(e) => {
            proof {
                if shape is TextModule {
                    let i = choose|i: int| 0 <= i < names@.len() && is_object_section_name(#[trigger] names@[i]@);
                    assert(names@.map_values(|n: String| n@)[i] == names@[i]@);
                    assert(!module_accepted(shape, kinds@));
                }
                assert(!parse_accepted(wat));
                lemma_refuted(t0, wat);
            }
            return Err(e);
        },
        Ok(()) => {},
    }
    proof {
        assert forall|i: int| 0 <= i < custom_names(kinds@).len() implies !is_object_section_name(
            #[trigger] custom_names(kinds@)[i],
        ) by {
            assert(names@.map_values(|n: String| n@)[i] == names@[i]@);
        }
        assert(parse_accepted(wat));
    }
    let parts = match resolve_text(wat) {
        Err(e) => {
            proof {
                lemma_refuted(t0, wat);
            }
            return Err(e);
        },
        Ok(p) => p,
    };
    let ghost t1 = RwatTrace { tokens, annotations: rwat, parts: parts@, ..arbitrary() };
    let items = match module_items(&parts) {
        Err(e) => {
            proof {
                lemma_refuted(t1, wat);
            }
            return Err(e);
        },
        Ok(items) => items,
    };
    let ghost t2 = RwatTrace { tokens, annotations: rwat, parts: parts@, items: items@, ..arbitrary() };
    assert(t2.resolved(wat));
    let link_info = match build_link_info(&rwat, &items) {
        Err(e) => {
            proof {
                lemma_refuted(t2, wat);
            }
            return Err(e);
        },
        Ok(info) => info,
    };
    let ghost t3 = RwatTrace {
        tokens,
        annotations: rwat,
        parts: parts@,
        items: items@,
        funcs: link_info.defined_funcs@,
        symbols: link_info.symbols@,
        ..arbitrary()
    };
    assert(t3.linked());
    let wasm = match encode_text(wat) {
        Err(e) => {
            proof {
                lemma_refuted(t3, wat);
            }
            return Err(e);
        },
        Ok(w) => w,
    };
    let ghost t4 = RwatTrace { wasm: wasm@, ..t3 };
    let sections = match raw_sections(wasm.as_slice()) {
        Err(e) => {
            proof {
                lemma_refuted(t4, wat);
            }
            return Err(e);
        },
        Ok(s) => s,
    };
    let ghost t5 = RwatTrace { sections: sections@, ..t4 };
    assert(t5.encoded(wat));
    let patched = match patch_code_section(wasm.as_slice(), &sections, &link_info.defined_funcs) {
        Err(e) => {
            proof {
                lemma_refuted(t5, wat);
            }
            return Err(e);
        },
        Ok(p) => p,
    };
    let ghost t6 = RwatTrace { code: patched, ..t5 };
    let linking = match linking_section(&link_info) {
        Err(e) => {
            proof {
                lemma_refuted(t6, wat);
            }
            return Err(e);
        },
        Ok(l) => l,
    };
    let reloc = match encode_reloc_code_section(&link_info, patched.as_ref()) {
        Err(e) => {
            proof {
                lemma_refuted(t6, wat);
            }
            return Err(e);
        },
        Ok(r) => r,
    };
    let out = match emit_module(wasm.as_slice(), &sections, &patched, &linking, &reloc) {
        Err(e) => {
            proof {
                lemma_refuted(t6, wat);
            }
            return Err(e);
        },
        Ok(out) => out,
    };
    assert(out@.subrange(0, 8) =~= module_header());
    proof {
        let st = spec_visit_fields(
            empty_state(),
            items@,
            rwat.import_annotations@,
            rwat.func_annotations@,
            rwat.table_annotations@,
        )->Some_0;
        law_symbol_table(st, link_info.symbols@);
        if let Some(c) = patched {
            if c.relocations@.len() > 0 {
                lemma_first_unlisted_none(c.relocations@, link_info.symbol_indices@);
            }
        }
        assert(is_rwat_output(out@, wasm@, sections@, patched, link_info.symbols@));
        let t = RwatTrace {
            tokens,
            annotations: rwat,
            parts: parts@,
            items: items@,
            funcs: link_info.defined_funcs@,
            wasm: wasm@,
            sections: sections@,
            code: patched,
            symbols: link_info.symbols@,
        };
        assert(t.explains(wat, out@));
    }
    Ok(out)
}

} // verus!
