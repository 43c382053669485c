//! Plain data shared by the passes.

use vstd::prelude::*;

verus! {

/// The code section's id is always 10.
pub const CODE_SECTION_ID: u8 = 10;

/// The `@sym` annotation of an item, as written.
#[derive(Debug, Clone, PartialEq, Eq)]
pub enum SymbolAnnotation {
    /// No `@sym`.
    Missing,
    /// `(@sym)`: the symbol takes its name from the item's identifier.
    Inferred,
    /// `(@sym (name "..."))`.
    Explicit(String),
}

impl SymbolAnnotation {
    pub open spec fn spec_is_present(&self) -> bool {
        !(self is Missing)
    }

    pub open spec fn spec_explicit_name(&self) -> Option<String> {
        match self {
            SymbolAnnotation::Explicit(name) => Some(*name),
            _ => None,
        }
    }

    /// A copy of the annotation.
    pub fn duplicate(&self) -> (a: SymbolAnnotation)
        ensures
            a == *self,
    {
        match self {
            SymbolAnnotation::Missing => SymbolAnnotation::Missing,
            SymbolAnnotation::Inferred => SymbolAnnotation::Inferred,
            SymbolAnnotation::Explicit(name) => SymbolAnnotation::Explicit(name.clone()),
        }
    }

    /// Whether the item carries a `@sym` annotation.
    pub fn is_present(&self) -> (b: bool)
        ensures
            b == self.spec_is_present(),
    {
        !matches!(self, SymbolAnnotation::Missing)
    }

    /// The explicit name, for `(@sym (name "..."))`.
    pub fn explicit_name(&self) -> (name: Option<String>)
        ensures
            name == self.spec_explicit_name(),
    {
        match self {
            SymbolAnnotation::Explicit(name) => Some(name.clone()),
            SymbolAnnotation::Missing | SymbolAnnotation::Inferred => None,
        }
    }
}

/// An item that may need a symbol: a function, table or tag, by index in its
/// index space.
#[derive(Debug, Clone, Copy, PartialEq, Eq, Structural)]
pub enum SymbolKey {
    Function(u32),
    Table(u32),
    Tag(u32),
}

impl SymbolKey {
    pub open spec fn spec_index(self) -> u32 {
        match self {
            SymbolKey::Function(i) => i,
            SymbolKey::Table(i) => i,
            SymbolKey::Tag(i) => i,
        }
    }

    /// The index of the item within its index space.
    pub fn index(self) -> (i: u32)
        ensures
            i == self.spec_index(),
    {
        match self {
            SymbolKey::Function(index) | SymbolKey::Table(index) | SymbolKey::Tag(index) => index,
        }
    }
}


/// A relocatable text instruction of a defined function, in body order.
#[derive(Debug, Clone, PartialEq, Eq)]
pub struct ParsedRelocInstruction {
    /// Whether `@reloc` follows the instruction.
    pub has_reloc: bool,
    /// The items its immediates reference.
    pub targets: Vec<SymbolKey>,
}

/// A function defined by the module.
#[derive(Debug, Clone)]
pub struct DefinedFunc {
    /// The name its symbol would get: the explicit `@sym` name, else the
    /// identifier.
    pub symbol_name: Option<String>,
    /// Its relocatable instructions, in order.
    pub reloc_instrs: Vec<ParsedRelocInstruction>,
    /// Where it is defined in the source text.
    pub span: usize,
}

/// A table defined by the module.
#[derive(Debug, Clone)]
pub struct DefinedTable {
    pub symbol_name: Option<String>,
    pub span: usize,
}

/// An entry of the `reloc.CODE` section.
#[derive(Debug, Clone, Copy, PartialEq, Eq, Structural)]
pub struct CodeRelocation {
    /// Offset of the patched immediate within the code section's payload.
    pub offset: u32,
    pub reloc_type: u8,
    pub target: SymbolKey,
}

/// A code section whose relocatable immediates were widened to 5 bytes.
#[derive(Debug, Clone)]
pub struct PatchedCodeSection {
    /// Position of the code section among all sections of the module.
    pub section_index: u32,
    pub payload: Vec<u8>,
    pub relocations: Vec<CodeRelocation>,
}

/// A section of an encoded module: its id, its position among the sections,
/// and the byte range of its payload.
#[derive(Debug, Clone, Copy, PartialEq, Eq, Structural)]
pub struct RawSection {
    pub id: u8,
    pub index: u32,
    pub start: usize,
    pub end: usize,
}

} // verus!
