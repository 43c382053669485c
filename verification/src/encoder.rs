//! Trusted access to `wasm_encoder`: LEB128 numbers, the symbol table of
//! the `linking` section, and the assembly of the final module.

use vstd::prelude::*;

use wasm_encoder::{CustomSection, LinkingSection, Module, SymbolTable};

use crate::leb::leb_u32;

verus! {

#[verifier::external_type_specification]
#[verifier::external_body]
pub struct ExSymbolTable(SymbolTable);

#[verifier::external_type_specification]
#[verifier::external_body]
pub struct ExLinkingSection(LinkingSection);

#[verifier::external_type_specification]
#[verifier::external_body]
pub struct ExModule(Module);

/// The entries a `SymbolTable` holds, encoded.
pub uninterp spec fn symbol_table_bytes(t: SymbolTable) -> Seq<u8>;

/// How many entries a `SymbolTable` holds.
pub uninterp spec fn symbol_table_count(t: SymbolTable) -> nat;

/// The payload a `LinkingSection` holds: the version and the subsections.
pub uninterp spec fn linking_bytes(l: LinkingSection) -> Seq<u8>;

/// The bytes a `Module` holds: the header and the sections written so far.
pub uninterp spec fn module_bytes(m: Module) -> Seq<u8>;

/// The UTF-8 bytes of a text.
pub open spec fn utf8(s: Seq<char>) -> Seq<u8> {
    vstd::utf8::encode_utf8(s)
}

/// A name as `wasm_encoder` encodes a `str`: its length, then its bytes.
pub open spec fn encoded_name(s: Seq<char>) -> Seq<u8> {
    leb_u32(utf8(s).len()) + utf8(s)
}

/// The optional name of a symbol table entry.
pub open spec fn optional_name(name: Option<Seq<char>>) -> Seq<u8> {
    match name {
        Some(n) => encoded_name(n),
        None => seq![],
    }
}

/// The contents of a custom section named `name` holding `data`, after its
/// id: its size, its name and the data.
pub open spec fn custom_section(name: Seq<char>, data: Seq<u8>) -> Seq<u8> {
    leb_u32(leb_u32(utf8(name).len()).len() + utf8(name).len() + data.len()) + encoded_name(name) + data
}

/// The magic number and version that begin a module.
pub open spec fn module_header() -> Seq<u8> {
    seq![0x00u8, 0x61, 0x73, 0x6d, 0x01, 0x00, 0x00, 0x00]
}

/// Appends `value` to `sink` through `wasm_encoder::Encode` for `u32`, which
/// writes the minimal unsigned LEB128 encoding (via `leb128fmt::encode_u32`).
#[verifier::external_body]
pub(crate) fn encode_u32(value: u32, sink: &mut Vec<u8>)
    ensures
        final(sink)@ == old(sink)@ + leb_u32(value as nat),
{
    wasm_encoder::Encode::encode(&value, sink);
}

/// `SymbolTable::new` of `wasm_encoder`: no entries.
#[verifier::external_body]
pub(crate) fn new_symbol_table() -> (t: SymbolTable)
    ensures
        symbol_table_bytes(t) == Seq::<u8>::empty(),
        symbol_table_count(t) == 0,
{
    SymbolTable::new()
}

/// `SymbolTable::function` of `wasm_encoder`: appends the kind (0), the
/// flags, the function index and the name, if any, and counts the entry.
#[verifier::external_body]
pub(crate) fn add_function_symbol(t: &mut SymbolTable, flags: u32, index: u32, name: Option<&str>)
    requires
        symbol_table_count(*old(t)) < u32::MAX,
        name matches Some(n) ==> utf8(n@).len() <= u32::MAX,
    ensures
        symbol_table_bytes(*final(t)) == symbol_table_bytes(*old(t)) + leb_u32(0) + leb_u32(flags as nat)
            + leb_u32(index as nat) + optional_name(
            match name {
                Some(n) => Some(n@),
                None => None,
            },
        ),
        symbol_table_count(*final(t)) == symbol_table_count(*old(t)) + 1,
{
    t.function(flags, index, name);
}

/// `SymbolTable::table` of `wasm_encoder`: appends the kind (5), the flags,
/// the table index and the name, if any, and counts the entry.
#[verifier::external_body]
pub(crate) fn add_table_symbol(t: &mut SymbolTable, flags: u32, index: u32, name: Option<&str>)
    requires
        symbol_table_count(*old(t)) < u32::MAX,
        name matches Some(n) ==> utf8(n@).len() <= u32::MAX,
    ensures
        symbol_table_bytes(*final(t)) == symbol_table_bytes(*old(t)) + leb_u32(5) + leb_u32(flags as nat)
            + leb_u32(index as nat) + optional_name(
            match name {
                Some(n) => Some(n@),
                None => None,
            },
        ),
        symbol_table_count(*final(t)) == symbol_table_count(*old(t)) + 1,
{
    t.table(flags, index, name);
}

/// `LinkingSection::new` of `wasm_encoder`: the version (2) alone.
#[verifier::external_body]
pub(crate) fn new_linking_section() -> (l: LinkingSection)
    ensures
        linking_bytes(l) == leb_u32(2),
{
    LinkingSection::new()
}

/// `LinkingSection::symbol_table` of `wasm_encoder`: appends the symbol
/// table subsection (8), its size, the count of entries and the entries.
#[verifier::external_body]
pub(crate) fn add_symbol_table(l: &mut LinkingSection, t: &SymbolTable)
    requires
        leb_u32(symbol_table_count(*t)).len() + symbol_table_bytes(*t).len() <= u32::MAX,
        symbol_table_count(*t) <= u32::MAX,
    ensures
        linking_bytes(*final(l)) == linking_bytes(*old(l)) + seq![8u8] + leb_u32(
            leb_u32(symbol_table_count(*t)).len() + symbol_table_bytes(*t).len(),
        ) + leb_u32(symbol_table_count(*t)) + symbol_table_bytes(*t),
{
    l.symbol_table(t);
}

/// `Module::new` of `wasm_encoder`: the header alone.
#[verifier::external_body]
pub(crate) fn new_module() -> (m: Module)
    ensures
        module_bytes(m) == module_header(),
{
    Module::new()
}

/// `Module::section` of `wasm_encoder` with a `RawSection`: appends the id,
/// the length of `data` and `data`.
#[verifier::external_body]
pub(crate) fn add_raw_section(m: &mut Module, id: u8, data: &[u8])
    requires
        data.len() <= u32::MAX,
    ensures
        module_bytes(*final(m)) == module_bytes(*old(m)) + seq![id] + leb_u32(data.len() as nat) + data@,
{
    m.section(&wasm_encoder::RawSection { id, data });
}

/// `Module::section` of `wasm_encoder` with a `CustomSection`: appends the
/// custom id (0) and the section's contents.
#[verifier::external_body]
pub(crate) fn add_custom_section(m: &mut Module, name: &str, data: &[u8])
    requires
        leb_u32(utf8(name@).len()).len() + utf8(name@).len() + data.len() <= u32::MAX,
    ensures
        module_bytes(*final(m)) == module_bytes(*old(m)) + seq![0u8] + custom_section(name@, data@),
{
    m.section(&CustomSection { name: name.into(), data: data.into() });
}

/// `Module::section` of `wasm_encoder` with a `LinkingSection`: appends the
/// custom id (0) and a custom section named `linking` holding the linking
/// payload.
#[verifier::external_body]
pub(crate) fn add_linking_section(m: &mut Module, l: &LinkingSection)
    requires
        leb_u32(utf8("linking"@).len()).len() + utf8("linking"@).len() + linking_bytes(*l).len() <= u32::MAX,
    ensures
        module_bytes(*final(m)) == module_bytes(*old(m)) + seq![0u8] + custom_section(
            "linking"@,
            linking_bytes(*l),
        ),
{
    m.section(l);
}

/// `Module::finish` of `wasm_encoder`: the bytes written.
#[verifier::external_body]
pub(crate) fn finish_module(m: Module) -> (v: Vec<u8>)
    ensures
        v@ == module_bytes(m),
{
    m.finish()
}

} // verus!
