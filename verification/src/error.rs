//! The library's error type.

use vstd::prelude::*;

verus! {

/// A keyword that the scanner expects.
#[derive(Debug, Clone, Copy, PartialEq, Eq, Structural)]
pub enum Keyword {
    Func,
    Import,
    Item,
    Module,
    Name,
    Table,
    Tag,
}

impl Keyword {
    pub open spec fn spec_text(self) -> Seq<char> {
        match self {
            Keyword::Func => "func"@,
            Keyword::Import => "import"@,
            Keyword::Item => "item"@,
            Keyword::Module => "module"@,
            Keyword::Name => "name"@,
            Keyword::Table => "table"@,
            Keyword::Tag => "tag"@,
        }
    }

    /// The keyword as written.
    pub fn text(self) -> (t: &'static str)
        ensures
            t@ == self.spec_text(),
    {
        match self {
            Keyword::Func => "func",
            Keyword::Import => "import",
            Keyword::Item => "item",
            Keyword::Module => "module",
            Keyword::Name => "name",
            Keyword::Table => "table",
            Keyword::Tag => "tag",
        }
    }
}

/// What went wrong.
#[derive(Debug, Clone, PartialEq, Eq)]
pub enum ErrorKind {
    /// An error reported by the text parser, resolver or encoder, with its
    /// message.
    Text(String),
    /// The module header lacks the `(@rwat)` annotation.
    MissingRwatAnnotation,
    /// A component was given where a core module is expected.
    ExpectedCoreModule,
    /// A `(module binary ...)` was given.
    BinaryModule,
    /// The input defines `linking` or `reloc.*` custom sections itself.
    ConflictingCustomSection,
    /// `@reloc` inside a function that is an import.
    RelocOnImportedFunction,
    /// The given keyword was expected.
    ExpectedKeyword(Keyword),
    /// `(` was expected.
    ExpectedLParen,
    /// `)` was expected.
    ExpectedRParen,
    /// A string was expected.
    ExpectedString,
    /// A string holding UTF-8 was expected.
    ExpectedUtf8String,
    /// The type of an imported item was expected.
    ExpectedImportType,
    /// A name or `item` clauses were expected after an import's module name.
    ExpectedStringOrItems,
    /// `@sym` on an import of the names-only group form.
    SymOnGroup2Import,
    /// An import group mixes items with and without types.
    UnexpectedRParen,
    /// `@reloc` that does not follow a relocatable instruction.
    RelocWithoutInstruction,
    /// A token that cannot be skipped.
    UnexpectedToken,
    /// An annotation whose closing `)` is missing.
    UnclosedAnnotation,
    /// Tokens after the module.
    ExtraTokens,
    /// A defined function needs a symbol but has neither `@sym (name ..)` nor
    /// an identifier.
    UnnamedFunctionSymbol,
    /// A defined table needs a symbol but has neither `@sym (name ..)` nor an
    /// identifier.
    UnnamedTableSymbol,
    /// A relocation targets a tag, for which no symbol can be emitted.
    TagSymbolUnsupported,
    /// The generated module does not line up with the parsed text (an
    /// internal inconsistency).
    Inconsistent,
}

/// An error with the byte offset in the source text where it arose.
#[derive(Debug, Clone, PartialEq, Eq)]
pub struct Error {
    pub offset: usize,
    pub kind: ErrorKind,
}

/// The human-readable message of an error of this kind.
pub open spec fn message_text(kind: ErrorKind) -> Seq<char> {
    match kind {
        ErrorKind::Text(msg) => msg@,
        ErrorKind::MissingRwatAnnotation => "expected module header annotation `(@rwat)`"@,
        ErrorKind::ExpectedCoreModule => "expected a core wasm module"@,
        ErrorKind::BinaryModule => "binary modules are not supported"@,
        ErrorKind::ConflictingCustomSection => "input wat already defines `linking`/`reloc.*` custom sections, but also uses `@sym`/`@reloc`; this combination is not supported yet"@,
        ErrorKind::RelocOnImportedFunction => "`@reloc` is only allowed in inline function bodies"@,
        ErrorKind::ExpectedLParen => "expected `(`"@,
        ErrorKind::ExpectedRParen => "expected `)`"@,
        ErrorKind::ExpectedString => "expected a string"@,
        ErrorKind::ExpectedUtf8String => "expected a utf-8 string"@,
        ErrorKind::ExpectedImportType => "expected an import type"@,
        ErrorKind::ExpectedStringOrItems => "expected a string or import items"@,
        ErrorKind::SymOnGroup2Import => "`@sym` is not allowed on group2 imports"@,
        ErrorKind::UnexpectedRParen => "unexpected `)`"@,
        ErrorKind::RelocWithoutInstruction => "`@reloc` must follow `call` or `return_call`"@,
        ErrorKind::UnexpectedToken => "unexpected token"@,
        ErrorKind::UnclosedAnnotation => "unclosed annotation"@,
        ErrorKind::ExtraTokens => "extra tokens remaining after parse"@,
        ErrorKind::UnnamedFunctionSymbol => "defined function symbols require an explicit `@sym (name ...)` or function identifier"@,
        ErrorKind::UnnamedTableSymbol => "defined table symbols require an explicit `@sym (name ...)` or table identifier"@,
        ErrorKind::TagSymbolUnsupported => "tag symbols are not supported in the symbol table"@,
        ErrorKind::Inconsistent => "generated wasm does not line up with the parsed text"@,
        ErrorKind::ExpectedKeyword(keyword) => "expected `"@ + keyword.spec_text() + "`"@,
    }
}

impl Error {
    pub fn new(offset: usize, kind: ErrorKind) -> (e: Error)
        ensures
            e.offset == offset,
            e.kind == kind,
    {
        Error { offset, kind }
    }

    /// A copy of the error.
    pub fn clone_error(&self) -> (e: Error)
        ensures
            e == *self,
    {
        let kind = match &self.kind {
            ErrorKind::Text(msg) => ErrorKind::Text(msg.clone()),
            ErrorKind::ExpectedKeyword(k) => ErrorKind::ExpectedKeyword(*k),
            ErrorKind::MissingRwatAnnotation => ErrorKind::MissingRwatAnnotation,
            ErrorKind::ExpectedCoreModule => ErrorKind::ExpectedCoreModule,
            ErrorKind::BinaryModule => ErrorKind::BinaryModule,
            ErrorKind::ConflictingCustomSection => ErrorKind::ConflictingCustomSection,
            ErrorKind::RelocOnImportedFunction => ErrorKind::RelocOnImportedFunction,
            ErrorKind::ExpectedLParen => ErrorKind::ExpectedLParen,
            ErrorKind::ExpectedRParen => ErrorKind::ExpectedRParen,
            ErrorKind::ExpectedString => ErrorKind::ExpectedString,
            ErrorKind::ExpectedUtf8String => ErrorKind::ExpectedUtf8String,
            ErrorKind::ExpectedImportType => ErrorKind::ExpectedImportType,
            ErrorKind::ExpectedStringOrItems => ErrorKind::ExpectedStringOrItems,
            ErrorKind::SymOnGroup2Import => ErrorKind::SymOnGroup2Import,
            ErrorKind::UnexpectedRParen => ErrorKind::UnexpectedRParen,
            ErrorKind::RelocWithoutInstruction => ErrorKind::RelocWithoutInstruction,
            ErrorKind::UnexpectedToken => ErrorKind::UnexpectedToken,
            ErrorKind::UnclosedAnnotation => ErrorKind::UnclosedAnnotation,
            ErrorKind::ExtraTokens => ErrorKind::ExtraTokens,
            ErrorKind::UnnamedFunctionSymbol => ErrorKind::UnnamedFunctionSymbol,
            ErrorKind::UnnamedTableSymbol => ErrorKind::UnnamedTableSymbol,
            ErrorKind::TagSymbolUnsupported => ErrorKind::TagSymbolUnsupported,
            ErrorKind::Inconsistent => ErrorKind::Inconsistent,
        };
        Error { offset: self.offset, kind }
    }

    /// The human-readable message of this error.
    pub fn message(&self) -> (msg: String)
        ensures
            msg@ == message_text(self.kind),
    {
        match &self.kind {
            ErrorKind::Text(msg) => msg.clone(),
            ErrorKind::MissingRwatAnnotation => "expected module header annotation `(@rwat)`".to_owned(),
            ErrorKind::ExpectedCoreModule => "expected a core wasm module".to_owned(),
            ErrorKind::BinaryModule => "binary modules are not supported".to_owned(),
            ErrorKind::ConflictingCustomSection => "input wat already defines `linking`/`reloc.*` custom sections, but also uses `@sym`/`@reloc`; this combination is not supported yet".to_owned(),
            ErrorKind::RelocOnImportedFunction => "`@reloc` is only allowed in inline function bodies".to_owned(),
            ErrorKind::ExpectedKeyword(keyword) => {
                let mut msg = "expected `".to_owned();
                msg.append(keyword.text());
                msg.append("`");
                msg
            },
            ErrorKind::ExpectedLParen => "expected `(`".to_owned(),
            ErrorKind::ExpectedRParen => "expected `)`".to_owned(),
            ErrorKind::ExpectedString => "expected a string".to_owned(),
            ErrorKind::ExpectedUtf8String => "expected a utf-8 string".to_owned(),
            ErrorKind::ExpectedImportType => "expected an import type".to_owned(),
            ErrorKind::ExpectedStringOrItems => "expected a string or import items".to_owned(),
            ErrorKind::SymOnGroup2Import => "`@sym` is not allowed on group2 imports".to_owned(),
            ErrorKind::UnexpectedRParen => "unexpected `)`".to_owned(),
            ErrorKind::RelocWithoutInstruction => "`@reloc` must follow `call` or `return_call`".to_owned(),
            ErrorKind::UnexpectedToken => "unexpected token".to_owned(),
            ErrorKind::UnclosedAnnotation => "unclosed annotation".to_owned(),
            ErrorKind::ExtraTokens => "extra tokens remaining after parse".to_owned(),
            ErrorKind::UnnamedFunctionSymbol => "defined function symbols require an explicit `@sym (name ...)` or function identifier".to_owned(),
            ErrorKind::UnnamedTableSymbol => "defined table symbols require an explicit `@sym (name ...)` or table identifier".to_owned(),
            ErrorKind::TagSymbolUnsupported => "tag symbols are not supported in the symbol table".to_owned(),
            ErrorKind::Inconsistent => "generated wasm does not line up with the parsed text".to_owned(),
        }
    }
}

} // verus!
