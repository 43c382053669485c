//! The text module as `wast` parses, resolves and encodes it, and what the
//! library reads of it: the kind of each field, the items of imports, and the
//! relocatable instructions of function bodies.

use vstd::prelude::*;

use wast::parser::ParseBuffer;
use wast::token::Index;
use wast::Wat;

use crate::error::{Error, ErrorKind};
use crate::link::{FuncBody, ImportItemKind, ModuleItem};
use vstd::string::StringSliceAdditionalSpecFns;
use crate::reloc::{RelocInstruction, TextCatch, TextIndex};
use crate::text::{str_eq, str_starts_with};

verus! {

#[verifier::external_type_specification]
#[verifier::external_body]
pub struct ExWat<'a>(Wat<'a>);

#[verifier::external_type_specification]
#[verifier::external_body]
pub struct ExModuleField<'a>(wast::core::ModuleField<'a>);

#[verifier::external_type_specification]
#[verifier::external_body]
pub struct ExInstruction<'a>(wast::core::Instruction<'a>);

#[verifier::external_type_specification]
#[verifier::external_body]
pub struct ExIndex<'a>(Index<'a>);

/// What a parsed text is.
#[derive(Debug, Clone, Copy, PartialEq, Eq, Structural)]
pub enum WatShape {
    Component,
    /// A `(module binary ...)`, with the offset of its `module` keyword.
    BinaryModule { span: usize },
    /// A module of fields, with the offset of its `module` keyword (0 where
    /// the text is fields without a `module` around them).
    TextModule { span: usize },
}

/// What a field is, as far as symbols are concerned.
#[derive(Debug, Clone, PartialEq, Eq)]
pub enum FieldKind {
    Import,
    /// A function: its identifier, the offset of its `func` keyword, and
    /// whether its body is given (rather than imported).
    Func { id: Option<String>, span: usize, inline: bool },
    /// A table: its identifier, the offset of its `table` keyword, and
    /// whether it is imported.
    Table { id: Option<String>, span: usize, imported: bool },
    /// A custom section, with its name.
    Custom { name: String },
    Other,
}

/// Which variant of `Wat` (and of `ModuleKind`) a parsed text is, with the
/// module's `span`.
/// A conversion, applied inside `parse_text` or `resolve_text`.
#[verifier::external_body]
pub(crate) fn wat_shape(w: &Wat<'_>) -> (shape: WatShape) {
    match w {
        Wat::Component(_) => WatShape::Component,
        Wat::Module(m) => match &m.kind {
            wast::core::ModuleKind::Binary(_) => WatShape::BinaryModule { span: m.span.offset() },
            wast::core::ModuleKind::Text(_) => WatShape::TextModule { span: m.span.offset() },
        },
    }
}

/// The fields of a text module (none for anything else).
/// A conversion, applied inside `parse_text` or `resolve_text`.
#[verifier::external_body]
pub(crate) fn module_fields<'c, 'b>(w: &'c Wat<'b>) -> (fields: &'c [wast::core::ModuleField<'b>]) {
    match w {
        Wat::Module(wast::core::Module { kind: wast::core::ModuleKind::Text(fields), .. }) => fields.as_slice(),
        _ => &[],
    }
}

/// What `wast` encodes the text `text` to: the text parsed as a `Wat`
/// (instruction offsets tracked) and encoded with `Wat::encode`, which
/// resolves it first; or the first error on the way.
pub uninterp spec fn wast_encoding(text: Seq<char>) -> Result<Seq<u8>, Error>;

/// `ParseBuffer::new`, `wast::parser::parse::<Wat>` and `Wat::encode` of
/// `wast` on `wat`: the binary module, or the first error. The result is a
/// function of the text alone and is named, not stated.
#[verifier::external_body]
pub(crate) fn encode_text(wat: &str) -> (res: Result<Vec<u8>, Error>)
    requires
        wat.spec_bytes().len() <= u32::MAX,
    ensures
        match wast_encoding(wat@) {
            Ok(bytes) => res matches Ok(v) && v@ == bytes,
            Err(e) => res == Err::<Vec<u8>, Error>(e),
        },
{
    let conv = |e: wast::Error| Error { offset: e.span().offset(), kind: ErrorKind::Text(e.message()) };
    let mut buf = ParseBuffer::new(wat).map_err(conv)?;
    buf.track_instr_spans(true);
    wast::parser::parse::<Wat>(&buf).map_err(conv)?.encode().map_err(conv)
}

/// What is read of one instruction of a function body: its direct-call
/// variant with its index immediates, its indirect-call or table variant,
/// its atomic table variant (each `Other` where it is none of them), and for
/// a `try_table` each `catch` clause with its tag.
pub type InstrParts = (
    (InstrKind, Option<TextIndex>, Option<TextIndex>),
    (InstrKind, Option<TextIndex>),
    (InstrKind, Option<TextIndex>),
    Option<Vec<Option<(CatchKind, Option<TextIndex>)>>>,
);

/// What is read of one field of a module: its kind, the kinds of the items
/// of an `import`, and the instructions of a function body with the source
/// offset recorded for each.
pub struct FieldParts {
    pub kind: FieldKind,
    pub import_kinds: Vec<ImportItemKind>,
    pub instrs: Vec<InstrParts>,
    pub spans: Vec<Option<usize>>,
}

/// What `wast` parses the text `text` to (instruction offsets tracked): the
/// shape of the result and the kind of each of its fields; or the parser's
/// error.
pub uninterp spec fn wast_parsed(text: Seq<char>) -> Result<(WatShape, Seq<FieldKind>), Error>;

/// The fields of the text `text` after `wast` has parsed it (instruction
/// offsets tracked) and resolved it with `Module::resolve`, each read as
/// `FieldParts`; or the first error on the way.
pub uninterp spec fn wast_resolved(text: Seq<char>) -> Result<Seq<FieldParts>, Error>;

/// `ParseBuffer::new` (with `track_instr_spans`) and
/// `wast::parser::parse::<Wat>` of `wast` on `wat`: the shape of the result
/// (`wat_shape`) and the kind of each field (`field_kind`). The result is a
/// function of the text alone and is named, not stated.
#[verifier::external_body]
pub(crate) fn parse_text(wat: &str) -> (res: Result<(WatShape, Vec<FieldKind>), Error>)
    requires
        wat.spec_bytes().len() <= u32::MAX,
    ensures
        match wast_parsed(wat@) {
            Ok((shape, kinds)) => res matches Ok((sh, v)) && sh == shape && v@ == kinds,
            Err(e) => res == Err::<(WatShape, Vec<FieldKind>), Error>(e),
        },
{
    let conv = |e: wast::Error| Error { offset: e.span().offset(), kind: ErrorKind::Text(e.message()) };
    let mut buf = ParseBuffer::new(wat).map_err(conv)?;
    buf.track_instr_spans(true);
    let w = wast::parser::parse::<Wat>(&buf).map_err(conv)?;
    Ok((wat_shape(&w), module_fields(&w).iter().map(field_kind).collect()))
}

/// `ParseBuffer::new` (with `track_instr_spans`),
/// `wast::parser::parse::<Wat>` and `Module::resolve` of `wast` on `wat`,
/// and each field of the resolved module read by `field_parts`. The result
/// is a function of the text alone and is named, not stated.
#[verifier::external_body]
pub(crate) fn resolve_text(wat: &str) -> (res: Result<Vec<FieldParts>, Error>)
    requires
        wat.spec_bytes().len() <= u32::MAX,
    ensures
        match wast_resolved(wat@) {
            Ok(fs) => res matches Ok(v) && v@ == fs,
            Err(e) => res == Err::<Vec<FieldParts>, Error>(e),
        },
{
    let conv = |e: wast::Error| Error { offset: e.span().offset(), kind: ErrorKind::Text(e.message()) };
    let mut buf = ParseBuffer::new(wat).map_err(conv)?;
    buf.track_instr_spans(true);
    let mut w = wast::parser::parse::<Wat>(&buf).map_err(conv)?;
    if let Wat::Module(m) = &mut w {
        m.resolve().map_err(conv)?;
    }
    Ok(module_fields(&w).iter().map(field_parts).collect())
}

/// One field of a module read as `FieldParts` with the conversions
/// `field_kind`, `import_item_kind`, `instr_parts` and `func_instr_span`. A
/// conversion, applied inside `resolve_text`.
#[verifier::external_body]
fn field_parts(f: &wast::core::ModuleField<'_>) -> (p: FieldParts) {
    let instrs = func_instrs(f);
    FieldParts {
        kind: field_kind(f),
        import_kinds: (0..import_item_count(f)).map(|j| import_item_kind(f, j)).collect(),
        instrs: instrs.iter().map(instr_parts).collect(),
        spans: (0..instrs.len()).map(|j| func_instr_span(f, j)).collect(),
    }
}

/// One instruction read as `InstrParts` with the conversions
/// `call_instruction`, `table_instruction`, `table_atomic_instruction`,
/// `try_table_catch` and `text_index`. A conversion, applied inside
/// `resolve_text`.
#[verifier::external_body]
fn instr_parts(i: &wast::core::Instruction<'_>) -> (p: InstrParts) {
    let (ck, ca, cb) = call_instruction(i);
    let (tk, ta) = table_instruction(i);
    let (ak, aa) = table_atomic_instruction(i);
    let catches = try_table_catch_count(i).map(|n| (0..n).map(|j| try_table_catch(i, j).map(|(k, t)| (k, t.map(text_index)))).collect());
    ((ck, ca.map(text_index), cb.map(text_index)), (tk, ta.map(text_index)), (ak, aa.map(text_index)), catches)
}

/// Which variant of `ModuleField` a field is, with what the library reads
/// of functions, tables and custom sections (`Id::name`, `Span::offset`,
/// `Custom::name`).
/// A conversion, applied inside `parse_text` or `resolve_text`.
#[verifier::external_body]
fn field_kind(f: &wast::core::ModuleField<'_>) -> (kind: FieldKind) {
    match f {
        wast::core::ModuleField::Import(_) => FieldKind::Import,
        wast::core::ModuleField::Func(func) => FieldKind::Func {
            id: func.id.map(|id| id.name().to_owned()),
            span: func.span.offset(),
            inline: matches!(func.kind, wast::core::FuncKind::Inline { .. }),
        },
        wast::core::ModuleField::Table(t) => FieldKind::Table {
            id: t.id.map(|id| id.name().to_owned()),
            span: t.span.offset(),
            imported: matches!(t.kind, wast::core::TableKind::Import { .. }),
        },
        wast::core::ModuleField::Custom(c) => FieldKind::Custom { name: c.name().to_owned() },
        _ => FieldKind::Other,
    }
}

/// `Imports::item_sigs` of `wast`: how many items an import field has.
/// A conversion, applied inside `parse_text` or `resolve_text`.
#[verifier::external_body]
fn import_item_count(f: &wast::core::ModuleField<'_>) -> (n: usize) {
    match f {
        wast::core::ModuleField::Import(imports) => imports.item_sigs().len(),
        _ => 0,
    }
}

/// The kind (`ItemKind`) of the `j`th item that `Imports::item_sigs` lists.
/// A conversion, applied inside `parse_text` or `resolve_text`.
#[verifier::external_body]
fn import_item_kind(f: &wast::core::ModuleField<'_>, j: usize) -> (kind: ImportItemKind) {
    match f {
        wast::core::ModuleField::Import(imports) => match imports.item_sigs().get(j).map(|sig| &sig.kind) {
            Some(wast::core::ItemKind::Func(_)) | Some(wast::core::ItemKind::FuncExact(_)) => ImportItemKind::Func,
            Some(wast::core::ItemKind::Table(_)) => ImportItemKind::Table,
            Some(wast::core::ItemKind::Tag(_)) => ImportItemKind::Tag,
            _ => ImportItemKind::Other,
        },
        _ => ImportItemKind::Other,
    }
}

/// The instructions of a function given by a body (none otherwise).
/// A conversion, applied inside `parse_text` or `resolve_text`.
#[verifier::external_body]
fn func_instrs<'c, 'b>(f: &'c wast::core::ModuleField<'b>) -> (instrs: &'c [wast::core::Instruction<'b>]) {
    match f {
        wast::core::ModuleField::Func(wast::core::Func { kind: wast::core::FuncKind::Inline { expression, .. }, .. }) => &expression.instrs,
        _ => &[],
    }
}

/// The source offset (`Span::offset`) that `Expression::instr_spans` records
/// for the `j`th instruction of a function body, where one is recorded.
/// A conversion, applied inside `parse_text` or `resolve_text`.
#[verifier::external_body]
fn func_instr_span(f: &wast::core::ModuleField<'_>, j: usize) -> (span: Option<usize>) {
    match f {
        wast::core::ModuleField::Func(wast::core::Func { kind: wast::core::FuncKind::Inline { expression, .. }, .. }) => {
            expression.instr_spans.as_ref().and_then(|spans| spans.get(j)).map(|span| span.offset())
        },
        _ => None,
    }
}

/// An `Index` of `wast`: its number, or that it is still a name.
/// A conversion, applied inside `parse_text` or `resolve_text`.
#[verifier::external_body]
fn text_index(x: &Index<'_>) -> (i: TextIndex) {
    match x {
        Index::Num(n, _) => TextIndex::Num(*n),
        Index::Id(_) => TextIndex::Id,
    }
}

/// The variants of `Instruction` whose immediates can be relocated.
#[derive(Debug, Clone, Copy, PartialEq, Eq, Structural)]
pub enum InstrKind {
    Call,
    ReturnCall,
    Throw,
    CallIndirect,
    ReturnCallIndirect,
    TableInit,
    TableCopy,
    TableGet,
    TableSet,
    TableFill,
    TableSize,
    TableGrow,
    TableAtomicGet,
    TableAtomicSet,
    TableAtomicRmwXchg,
    TableAtomicRmwCmpxchg,
    Other,
}

/// The kinds of `catch` clauses of a `try_table`.
#[derive(Debug, Clone, Copy, PartialEq, Eq, Structural)]
pub enum CatchKind {
    Catch,
    CatchRef,
    CatchAll,
    CatchAllRef,
}

/// The direct call, throw and table-initialising variants of `Instruction`,
/// with their index immediates; `Other` for all other variants.
/// A conversion, applied inside `parse_text` or `resolve_text`.
#[verifier::external_body]
fn call_instruction<'c, 'b>(i: &'c wast::core::Instruction<'b>) -> (r: (InstrKind, Option<&'c Index<'b>>, Option<&'c Index<'b>>)) {
    match i {
        wast::core::Instruction::call(x) => (InstrKind::Call, Some(x), None),
        wast::core::Instruction::return_call(x) => (InstrKind::ReturnCall, Some(x), None),
        wast::core::Instruction::throw(x) => (InstrKind::Throw, Some(x), None),
        wast::core::Instruction::table_init(t) => (InstrKind::TableInit, Some(&t.table), None),
        wast::core::Instruction::table_copy(t) => (InstrKind::TableCopy, Some(&t.dst), Some(&t.src)),
        _ => (InstrKind::Other, None, None),
    }
}

/// The indirect call and table-access variants of `Instruction`, with their
/// table index; `Other` for all other variants.
/// A conversion, applied inside `parse_text` or `resolve_text`.
#[verifier::external_body]
fn table_instruction<'c, 'b>(i: &'c wast::core::Instruction<'b>) -> (r: (InstrKind, Option<&'c Index<'b>>)) {
    match i {
        wast::core::Instruction::call_indirect(c) => (InstrKind::CallIndirect, Some(&c.table)),
        wast::core::Instruction::return_call_indirect(c) => (InstrKind::ReturnCallIndirect, Some(&c.table)),
        wast::core::Instruction::table_get(a) => (InstrKind::TableGet, Some(&a.dst)),
        wast::core::Instruction::table_set(a) => (InstrKind::TableSet, Some(&a.dst)),
        wast::core::Instruction::table_fill(a) => (InstrKind::TableFill, Some(&a.dst)),
        wast::core::Instruction::table_size(a) => (InstrKind::TableSize, Some(&a.dst)),
        wast::core::Instruction::table_grow(a) => (InstrKind::TableGrow, Some(&a.dst)),
        _ => (InstrKind::Other, None),
    }
}

/// The atomic table-access variants of `Instruction`, with their table
/// index; `Other` for all other variants.
/// A conversion, applied inside `parse_text` or `resolve_text`.
#[verifier::external_body]
fn table_atomic_instruction<'c, 'b>(i: &'c wast::core::Instruction<'b>) -> (r: (InstrKind, Option<&'c Index<'b>>)) {
    match i {
        wast::core::Instruction::table_atomic_get(a) => (InstrKind::TableAtomicGet, Some(&a.inner.dst)),
        wast::core::Instruction::table_atomic_set(a) => (InstrKind::TableAtomicSet, Some(&a.inner.dst)),
        wast::core::Instruction::table_atomic_rmw_xchg(a) => (InstrKind::TableAtomicRmwXchg, Some(&a.inner.dst)),
        wast::core::Instruction::table_atomic_rmw_cmpxchg(a) => (InstrKind::TableAtomicRmwCmpxchg, Some(&a.inner.dst)),
        _ => (InstrKind::Other, None),
    }
}

/// For a `try_table` instruction, how many `catch` clauses it has.
/// A conversion, applied inside `parse_text` or `resolve_text`.
#[verifier::external_body]
fn try_table_catch_count(i: &wast::core::Instruction<'_>) -> (n: Option<usize>) {
    match i {
        wast::core::Instruction::try_table(t) => Some(t.catches.len()),
        _ => None,
    }
}

/// The kind (`TryTableCatchKind`) of the `j`th `catch` clause of a
/// `try_table`, with its tag index.
/// A conversion, applied inside `parse_text` or `resolve_text`.
#[verifier::external_body]
fn try_table_catch<'c, 'b>(i: &'c wast::core::Instruction<'b>, j: usize) -> (c: Option<(CatchKind, Option<&'c Index<'b>>)>) {
    match i {
        wast::core::Instruction::try_table(t) => t.catches.get(j).map(|c| match &c.kind {
            wast::core::TryTableCatchKind::Catch(x) => (CatchKind::Catch, Some(x)),
            wast::core::TryTableCatchKind::CatchRef(x) => (CatchKind::CatchRef, Some(x)),
            wast::core::TryTableCatchKind::CatchAll => (CatchKind::CatchAll, None),
            wast::core::TryTableCatchKind::CatchAllRef => (CatchKind::CatchAllRef, None),
        }),
        _ => None,
    }
}

/// The relocatable view of an instruction of kind `kind` with index
/// immediates `a` and `b`; `None` where an immediate it needs is missing.
pub open spec fn spec_reloc_instruction(kind: InstrKind, a: Option<TextIndex>, b: Option<TextIndex>) -> Option<
    RelocInstruction,
> {
    if kind is Other {
        Some(RelocInstruction::Other)
    } else if kind is TableCopy {
        match (a, b) {
            (Some(x), Some(y)) => Some(RelocInstruction::TableCopy(x, y)),
            _ => None,
        }
    } else {
        match a {
            None => None,
            Some(x) => Some(
                match kind {
                    InstrKind::Call => RelocInstruction::Call(x),
                    InstrKind::ReturnCall => RelocInstruction::ReturnCall(x),
                    InstrKind::Throw => RelocInstruction::Throw(x),
                    InstrKind::CallIndirect => RelocInstruction::CallIndirect(x),
                    InstrKind::ReturnCallIndirect => RelocInstruction::ReturnCallIndirect(x),
                    InstrKind::TableInit => RelocInstruction::TableInit(x),
                    InstrKind::TableGet => RelocInstruction::TableGet(x),
                    InstrKind::TableSet => RelocInstruction::TableSet(x),
                    InstrKind::TableFill => RelocInstruction::TableFill(x),
                    InstrKind::TableSize => RelocInstruction::TableSize(x),
                    InstrKind::TableGrow => RelocInstruction::TableGrow(x),
                    InstrKind::TableAtomicGet => RelocInstruction::TableAtomicGet(x),
                    InstrKind::TableAtomicSet => RelocInstruction::TableAtomicSet(x),
                    InstrKind::TableAtomicRmwXchg => RelocInstruction::TableAtomicRmwXchg(x),
                    _ => RelocInstruction::TableAtomicRmwCmpxchg(x),
                },
            ),
        }
    }
}

/// The relocatable view of an instruction of kind `kind` with index
/// immediates `a` and `b`; `None` where an immediate it needs is missing.
pub fn reloc_instruction(kind: InstrKind, a: Option<TextIndex>, b: Option<TextIndex>) -> (r: Option<
    RelocInstruction,
>)
    ensures
        r == spec_reloc_instruction(kind, a, b),
{
    if matches!(kind, InstrKind::Other) {
        return Some(RelocInstruction::Other);
    }
    if matches!(kind, InstrKind::TableCopy) {
        return match (a, b) {
            (Some(x), Some(y)) => Some(RelocInstruction::TableCopy(x, y)),
            _ => None,
        };
    }
    let x = match a {
        None => return None,
        Some(x) => x,
    };
    Some(
        match kind {
            InstrKind::Call => RelocInstruction::Call(x),
            InstrKind::ReturnCall => RelocInstruction::ReturnCall(x),
            InstrKind::Throw => RelocInstruction::Throw(x),
            InstrKind::CallIndirect => RelocInstruction::CallIndirect(x),
            InstrKind::ReturnCallIndirect => RelocInstruction::ReturnCallIndirect(x),
            InstrKind::TableInit => RelocInstruction::TableInit(x),
            InstrKind::TableGet => RelocInstruction::TableGet(x),
            InstrKind::TableSet => RelocInstruction::TableSet(x),
            InstrKind::TableFill => RelocInstruction::TableFill(x),
            InstrKind::TableSize => RelocInstruction::TableSize(x),
            InstrKind::TableGrow => RelocInstruction::TableGrow(x),
            InstrKind::TableAtomicGet => RelocInstruction::TableAtomicGet(x),
            InstrKind::TableAtomicSet => RelocInstruction::TableAtomicSet(x),
            InstrKind::TableAtomicRmwXchg => RelocInstruction::TableAtomicRmwXchg(x),
            _ => RelocInstruction::TableAtomicRmwCmpxchg(x),
        },
    )
}

/// The `catch` clause of kind `kind` with tag index `tag`; `None` where a
/// tag it needs is missing.
pub open spec fn spec_text_catch(kind: CatchKind, tag: Option<TextIndex>) -> Option<TextCatch> {
    match kind {
        CatchKind::Catch => match tag {
            Some(t) => Some(TextCatch::Catch(t)),
            None => None,
        },
        CatchKind::CatchRef => match tag {
            Some(t) => Some(TextCatch::CatchRef(t)),
            None => None,
        },
        CatchKind::CatchAll => Some(TextCatch::CatchAll),
        CatchKind::CatchAllRef => Some(TextCatch::CatchAllRef),
    }
}

/// The `catch` clause of kind `kind` with tag index `tag`; `None` where a
/// tag it needs is missing.
pub fn text_catch(kind: CatchKind, tag: Option<TextIndex>) -> (c: Option<TextCatch>)
    ensures
        c == spec_text_catch(kind, tag),
        c == (match kind {
            CatchKind::Catch => match tag {
                Some(t) => Some(TextCatch::Catch(t)),
                None => None,
            },
            CatchKind::CatchRef => match tag {
                Some(t) => Some(TextCatch::CatchRef(t)),
                None => None,
            },
            CatchKind::CatchAll => Some(TextCatch::CatchAll),
            CatchKind::CatchAllRef => Some(TextCatch::CatchAllRef),
        }),
{
    match kind {
        CatchKind::Catch => match tag {
            Some(t) => Some(TextCatch::Catch(t)),
            None => None,
        },
        CatchKind::CatchRef => match tag {
            Some(t) => Some(TextCatch::CatchRef(t)),
            None => None,
        },
        CatchKind::CatchAll => Some(TextCatch::CatchAll),
        CatchKind::CatchAllRef => Some(TextCatch::CatchAllRef),
    }
}

/// Whether a custom section of this name is one the library emits itself.
pub open spec fn is_object_section_name(name: Seq<char>) -> bool {
    name == "linking"@ || ("reloc."@.len() <= name.len() && name.subrange(0, "reloc."@.len() as int)
        == "reloc."@)
}

/// Whether a custom section of this name is one the library emits itself:
/// `linking`, or a name that starts with `reloc.`.
pub fn object_section_name(name: &str) -> (b: bool)
    ensures
        b == is_object_section_name(name@),
{
    proof {
        reveal_strlit("reloc.");
    }
    str_eq(name, "linking") || str_starts_with(name, "reloc.")
}

/// The checks on a parsed text before it is resolved: it must be a module
/// of fields, and it may not define the custom sections that are emitted.
pub fn check_text_module(shape: WatShape, custom_names: &Vec<String>) -> (res: Result<(), Error>)
    ensures
        shape is Component ==> res == Err::<(), Error>(Error { offset: 0, kind: ErrorKind::ExpectedCoreModule }),
        shape matches WatShape::BinaryModule { span } ==> res == Err::<(), Error>(
            Error { offset: span, kind: ErrorKind::BinaryModule },
        ),
        shape matches WatShape::TextModule { span } ==> (if exists|i: int|
            0 <= i < custom_names@.len() && is_object_section_name(#[trigger] custom_names@[i]@) {
            res == Err::<(), Error>(Error { offset: span, kind: ErrorKind::ConflictingCustomSection })
        } else {
            res is Ok
        }),
{
    match shape {
        WatShape::Component => Err(Error::new(0, ErrorKind::ExpectedCoreModule)),
        WatShape::BinaryModule { span } => Err(Error::new(span, ErrorKind::BinaryModule)),
        WatShape::TextModule { span } => {
            let mut i: usize = 0;
            while i < custom_names.len()
                invariant
                    shape == (WatShape::TextModule { span }),
                    i <= custom_names.len(),
                    forall|j: int| 0 <= j < i ==> !is_object_section_name(#[trigger] custom_names@[j]@),
                decreases custom_names.len() - i,
            {
                if object_section_name(custom_names[i].as_str()) {
                    assert(is_object_section_name(custom_names@[i as int]@));
                    return Err(Error::new(span, ErrorKind::ConflictingCustomSection));
                }
                i += 1;
            }
            Ok(())
        },
    }
}

/// The names of the custom sections among fields of kinds `kinds`, in
/// order.
pub open spec fn custom_names(kinds: Seq<FieldKind>) -> Seq<Seq<char>>
    decreases kinds.len(),
{
    if kinds.len() == 0 {
        seq![]
    } else {
        match kinds.last() {
            FieldKind::Custom { name } => custom_names(kinds.drop_last()).push(name@),
            _ => custom_names(kinds.drop_last()),
        }
    }
}

/// The names of the custom sections among the fields.
pub(crate) fn custom_section_names(kinds: &Vec<FieldKind>) -> (names: Vec<String>)
    ensures
        names@.map_values(|n: String| n@) == custom_names(kinds@),
{
    let mut names: Vec<String> = Vec::new();
    let mut i: usize = 0;
    proof {
        assert(kinds@.take(0) =~= Seq::<FieldKind>::empty());
        assert(names@.map_values(|n: String| n@) =~= Seq::<Seq<char>>::empty());
    }
    while i < kinds.len()
        invariant
            i <= kinds.len(),
            names@.map_values(|n: String| n@) == custom_names(kinds@.take(i as int)),
        decreases kinds.len() - i,
    {
        proof {
            assert(kinds@.take(i + 1).drop_last() =~= kinds@.take(i as int));
            assert(kinds@.take(i + 1).last() == kinds@[i as int]);
        }
        match &kinds[i] {
            FieldKind::Custom { name } => {
                let ghost before = names@;
                names.push(name.clone());
                proof {
                    assert(names@.map_values(|n: String| n@) =~= before.map_values(|n: String| n@).push(name@));
                }
            },
            _ => {},
        }
        i += 1;
    }
    proof {
        assert(kinds@.take(i as int) =~= kinds@);
    }
    names
}

/// The immediates of the variant an instruction is read as: its direct-call
/// variant, else its indirect-call or table variant, else its atomic table
/// variant.
pub open spec fn chosen_parts(p: InstrParts) -> (InstrKind, Option<TextIndex>, Option<TextIndex>) {
    if !(p.0.0 is Other) {
        p.0
    } else if !(p.1.0 is Other) {
        (p.1.0, p.1.1, None)
    } else {
        (p.2.0, p.2.1, None)
    }
}

/// The `catch` clauses read, all complete.
pub open spec fn catches_complete(cs: Seq<Option<(CatchKind, Option<TextIndex>)>>) -> bool {
    forall|k: int| 0 <= k < cs.len() ==> ((#[trigger] cs[k]) matches Some((kind, tag)) && spec_text_catch(kind, tag) is Some)
}

/// The `catch` clauses of a `try_table`, from what was read.
pub open spec fn catches_of(cs: Seq<Option<(CatchKind, Option<TextIndex>)>>) -> Seq<TextCatch> {
    Seq::new(cs.len(), |k: int| spec_text_catch(cs[k]->Some_0.0, cs[k]->Some_0.1)->Some_0)
}

/// The instruction read as `p` has all the immediates it needs.
pub open spec fn instruction_parts_ok(p: InstrParts) -> bool {
    let c = chosen_parts(p);
    if !(c.0 is Other) {
        spec_reloc_instruction(c.0, c.1, c.2) is Some
    } else {
        match p.3 {
            None => true,
            Some(cs) => catches_complete(cs@),
        }
    }
}

/// `r` is the relocatable view of the instruction read as `p`.
pub open spec fn is_instruction_of(r: RelocInstruction, p: InstrParts) -> bool {
    let c = chosen_parts(p);
    if !(c.0 is Other) {
        spec_reloc_instruction(c.0, c.1, c.2) == Some(r)
    } else {
        match p.3 {
            None => r is Other,
            Some(cs) => r matches RelocInstruction::TryTable(tc) && tc@ == catches_of(cs@),
        }
    }
}

/// The relocatable view of one instruction, from what was read of it.
fn instruction_of(p: &InstrParts) -> (r: Result<RelocInstruction, Error>)
    ensures
        instruction_parts_ok(*p) ==> (r matches Ok(i) && is_instruction_of(i, *p)),
        !instruction_parts_ok(*p) ==> r == Err::<RelocInstruction, Error>(Error { offset: 0, kind: ErrorKind::Inconsistent }),
{
    let (kind, a, b) = if !matches!(p.0.0, InstrKind::Other) {
        p.0
    } else if !matches!(p.1.0, InstrKind::Other) {
        (p.1.0, p.1.1, None)
    } else {
        (p.2.0, p.2.1, None)
    };
    if !matches!(kind, InstrKind::Other) {
        return match reloc_instruction(kind, a, b) {
            Some(r) => Ok(r),
            None => Err(Error::new(0, ErrorKind::Inconsistent)),
        };
    }
    let cs = match &p.3 {
        None => return Ok(RelocInstruction::Other),
        Some(cs) => cs,
    };
    let mut catches: Vec<TextCatch> = Vec::new();
    let mut j: usize = 0;
    while j < cs.len()
        invariant
            j <= cs.len(),
            p.3 == Some(*cs),
            chosen_parts(*p).0 is Other,
            forall|k: int| 0 <= k < j ==> ((#[trigger] cs@[k]) matches Some((kind, tag)) && spec_text_catch(kind, tag) is Some),
            catches@ == catches_of(cs@).take(j as int),
        decreases cs.len() - j,
    {
        let c = match cs[j] {
            Some((kind, tag)) => text_catch(kind, tag),
            None => None,
        };
        match c {
            Some(c) => {
                catches.push(c);
                proof {
                    assert(catches@ =~= catches_of(cs@).take(j + 1));
                }
            },
            None => {
                proof {
                    assert(!catches_complete(cs@));
                }
                return Err(Error::new(0, ErrorKind::Inconsistent));
            },
        }
        j += 1;
    }
    proof {
        assert(catches@ =~= catches_of(cs@));
    }
    Ok(RelocInstruction::TryTable(catches))
}

/// The source offset recorded for the `k`th instruction of a field.
pub open spec fn span_at(p: FieldParts, k: int) -> Option<usize> {
    if 0 <= k < p.spans@.len() {
        p.spans@[k]
    } else {
        None
    }
}

/// Every instruction of the field has all the immediates it needs.
pub open spec fn body_parts_ok(p: FieldParts) -> bool {
    forall|k: int| 0 <= k < p.instrs@.len() ==> instruction_parts_ok(#[trigger] p.instrs@[k])
}

/// Every instruction of the field has a recorded source offset.
pub open spec fn all_spans(p: FieldParts) -> bool {
    forall|k: int| 0 <= k < p.instrs@.len() ==> (#[trigger] span_at(p, k)) is Some
}

/// `b` is the body read as the field `p`: its instructions, and their
/// offsets where every one of them was recorded.
pub open spec fn is_body_of(b: FuncBody, p: FieldParts) -> bool {
    &&& b.instrs@.len() == p.instrs@.len()
    &&& forall|k: int| 0 <= k < p.instrs@.len() ==> is_instruction_of(#[trigger] b.instrs@[k], p.instrs@[k])
    &&& if all_spans(p) {
        b.instr_spans matches Some(sp) && sp@ == Seq::new(p.instrs@.len(), |k: int| span_at(p, k)->Some_0)
    } else {
        b.instr_spans is None
    }
}

/// The body of a function field: its instructions, and their source offsets
/// where every one of them was recorded.
fn func_body(p: &FieldParts) -> (res: Result<FuncBody, Error>)
    ensures
        res matches Ok(b) ==> (b.instr_spans matches Some(sp) ==> sp.len() == b.instrs.len()),
        body_parts_ok(*p) ==> (res matches Ok(b) && is_body_of(b, *p)),
        !body_parts_ok(*p) ==> res == Err::<FuncBody, Error>(Error { offset: 0, kind: ErrorKind::Inconsistent }),
{
    let n = p.instrs.len();
    let mut converted: Vec<RelocInstruction> = Vec::new();
    let mut spans: Vec<usize> = Vec::new();
    let mut all = true;
    let mut j: usize = 0;
    while j < n
        invariant
            n == p.instrs.len(),
            j <= n,
            converted.len() == j,
            forall|k: int| 0 <= k < j ==> instruction_parts_ok(#[trigger] p.instrs@[k]),
            forall|k: int| 0 <= k < j ==> is_instruction_of(#[trigger] converted@[k], p.instrs@[k]),
            all <==> forall|k: int| 0 <= k < j ==> (#[trigger] span_at(*p, k)) is Some,
            all ==> spans@ == Seq::new(j as nat, |k: int| span_at(*p, k)->Some_0),
        decreases n - j,
    {
        match instruction_of(&p.instrs[j]) {
            Err(e) => {
                return Err(e);
            },
            Ok(r) => converted.push(r),
        }
        let s = if j < p.spans.len() {
            p.spans[j]
        } else {
            None
        };
        assert(s == span_at(*p, j as int));
        match s {
            Some(span) => {
                if all {
                    spans.push(span);
                    proof {
                        assert(spans@ =~= Seq::new((j + 1) as nat, |k: int| span_at(*p, k)->Some_0));
                    }
                }
            },
            None => {
                all = false;
            },
        }
        j += 1;
    }
    let b = FuncBody { instrs: converted, instr_spans: if all { Some(spans) } else { None } };
    assert(is_body_of(b, *p));
    Ok(b)
}

/// Every function body among the fields has the immediates it needs.
pub open spec fn field_ok(p: FieldParts) -> bool {
    p.kind matches FieldKind::Func { inline, .. } && inline ==> body_parts_ok(p)
}

/// `item` is what the library reads of the field read as `p`.
pub open spec fn is_item_of(item: ModuleItem, p: FieldParts) -> bool {
    match p.kind {
        FieldKind::Import => item matches ModuleItem::Import { kinds } && kinds@ == p.import_kinds@,
        FieldKind::Func { id, span, inline } => item matches ModuleItem::Func { id: id2, span: span2, body }
            && id2 == id && span2 == span && if inline {
            body matches Some(b) && is_body_of(b, p)
        } else {
            body is None
        },
        FieldKind::Table { id, span, imported } => item == (ModuleItem::Table { id, span, imported }),
        _ => item is Other,
    }
}

/// What the library reads of the fields of a resolved module.
pub(crate) fn module_items(fields: &Vec<FieldParts>) -> (res: Result<Vec<ModuleItem>, Error>)
    ensures
        (forall|k: int| 0 <= k < fields.len() ==> field_ok(#[trigger] fields@[k])) ==> (res matches Ok(items)
            && items.len() == fields.len() && forall|k: int|
            0 <= k < fields.len() ==> is_item_of(#[trigger] items@[k], fields@[k])),
        !(forall|k: int| 0 <= k < fields.len() ==> field_ok(#[trigger] fields@[k])) ==> res == Err::<
            Vec<ModuleItem>,
            Error,
        >(Error { offset: 0, kind: ErrorKind::Inconsistent }),
{
    let mut items: Vec<ModuleItem> = Vec::new();
    let mut i: usize = 0;
    while i < fields.len()
        invariant
            i <= fields.len(),
            items.len() == i,
            forall|k: int| 0 <= k < i ==> field_ok(#[trigger] fields@[k]),
            forall|k: int| 0 <= k < i ==> is_item_of(#[trigger] items@[k], fields@[k]),
        decreases fields.len() - i,
    {
        let f = &fields[i];
        let item = match &f.kind {
            FieldKind::Import => {
                let mut kinds: Vec<ImportItemKind> = Vec::new();
                let mut j: usize = 0;
                while j < f.import_kinds.len()
                    invariant
                        j <= f.import_kinds.len(),
                        kinds@ == f.import_kinds@.take(j as int),
                    decreases f.import_kinds.len() - j,
                {
                    kinds.push(f.import_kinds[j]);
                    j += 1;
                    proof {
                        assert(kinds@ =~= f.import_kinds@.take(j as int));
                    }
                }
                proof {
                    assert(kinds@ =~= f.import_kinds@);
                }
                ModuleItem::Import { kinds }
            },
            FieldKind::Func { id, span, inline } => {
                let body = if *inline {
                    match func_body(f) {
                        Err(e) => {
                            return Err(e);
                        },
                        Ok(b) => Some(b),
                    }
                } else {
                    None
                };
                ModuleItem::Func { id: id.clone(), span: *span, body }
            },
            FieldKind::Table { id, span, imported } => ModuleItem::Table { id: id.clone(), span: *span, imported: *imported },
            _ => ModuleItem::Other,
        };
        items.push(item);
        i += 1;
    }
    Ok(items)
}

} // verus!
