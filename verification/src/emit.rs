//! The `linking` section, and the final module: the encoded module's
//! sections, the code section replaced by its patched payload, and the
//! object sections after the last non-custom section.

use vstd::prelude::*;

use wasm_encoder::{LinkingSection, Module};

use vstd::string::StringSliceAdditionalSpecFns;

use crate::binary::sections_within;
use crate::encoder::{
    add_custom_section, add_function_symbol, add_linking_section, add_raw_section, add_symbol_table,
    add_table_symbol, custom_section, encoded_name, finish_module, linking_bytes, module_bytes,
    module_header, new_linking_section, new_module, new_symbol_table, optional_name, symbol_table_bytes,
    symbol_table_count, utf8,
};
use crate::error::{Error, ErrorKind};
use crate::leb::{leb_u32, lemma_leb_u32_len, u32_leb_len};
use crate::link::{LinkInfo, Symbol};
use crate::types::{PatchedCodeSection, RawSection, CODE_SECTION_ID};

verus! {

/// The flag of a symbol that the module imports rather than defines.
pub const SYM_UNDEFINED: u32 = 0x10;

/// The flag of an imported symbol that carries its own name.
pub const SYM_EXPLICIT_NAME: u32 = 0x40;

/// The flags of an imported symbol.
pub open spec fn import_flags(explicit_name: Option<String>) -> u32 {
    if explicit_name is Some {
        (SYM_UNDEFINED + SYM_EXPLICIT_NAME) as u32
    } else {
        SYM_UNDEFINED
    }
}

pub open spec fn name_view(name: Option<String>) -> Option<Seq<char>> {
    match name {
        Some(n) => Some(n@),
        None => None,
    }
}

/// The symbol table entry of a symbol: its kind (0 for a function, 5 for a
/// table), its flags, its index, and its name where it has one.
pub open spec fn symbol_entry(sym: Symbol) -> Seq<u8> {
    match sym {
        Symbol::FunctionImport { index, explicit_name } => leb_u32(0) + leb_u32(
            import_flags(explicit_name) as nat,
        ) + leb_u32(index as nat) + optional_name(name_view(explicit_name)),
        Symbol::FunctionDefined { index, symbol_name } => leb_u32(0) + leb_u32(0) + leb_u32(index as nat)
            + encoded_name(symbol_name@),
        Symbol::TableImport { index, explicit_name } => leb_u32(5) + leb_u32(import_flags(explicit_name) as nat)
            + leb_u32(index as nat) + optional_name(name_view(explicit_name)),
        Symbol::TableDefined { index, symbol_name } => leb_u32(5) + leb_u32(0) + leb_u32(index as nat)
            + encoded_name(symbol_name@),
    }
}

/// The entries of the symbol table, in order.
pub open spec fn symbol_entries(syms: Seq<Symbol>) -> Seq<u8>
    decreases syms.len(),
{
    if syms.len() == 0 {
        seq![]
    } else {
        symbol_entries(syms.drop_last()) + symbol_entry(syms.last())
    }
}

/// The name of a symbol, if it has one.
pub open spec fn symbol_name(sym: Symbol) -> Option<Seq<char>> {
    match sym {
        Symbol::FunctionImport { explicit_name, .. } => name_view(explicit_name),
        Symbol::FunctionDefined { symbol_name, .. } => Some(symbol_name@),
        Symbol::TableImport { explicit_name, .. } => name_view(explicit_name),
        Symbol::TableDefined { symbol_name, .. } => Some(symbol_name@),
    }
}

/// Whether a symbol table of `syms` can be encoded: its counts and lengths
/// fit in 32 bits.
pub open spec fn linking_fits(syms: Seq<Symbol>) -> bool {
    &&& syms.len() < u32::MAX
    &&& forall|i: int|
        0 <= i < syms.len() ==> (#[trigger] symbol_name(syms[i]) matches Some(n) ==> utf8(n).len()
            <= u32::MAX)
    &&& leb_u32(syms.len()).len() + symbol_entries(syms).len() <= u32::MAX
    &&& custom_fits("linking"@, linking_payload(syms))
}

/// The payload of the `linking` section for `syms`: the version (2) and one
/// symbol table subsection (8) with its size, its count and its entries.
pub open spec fn linking_payload(syms: Seq<Symbol>) -> Seq<u8> {
    leb_u32(2) + seq![8u8] + leb_u32(leb_u32(syms.len()).len() + symbol_entries(syms).len()) + leb_u32(
        syms.len(),
    ) + symbol_entries(syms)
}

proof fn lemma_entries_grow(syms: Seq<Symbol>, k: int)
    requires
        0 <= k <= syms.len(),
    ensures
        symbol_entries(syms.take(k)).len() <= symbol_entries(syms).len(),
    decreases syms.len() - k,
{
    if k < syms.len() {
        lemma_entries_grow(syms, k + 1);
        let t = syms.take(k + 1);
        assert(t.drop_last() =~= syms.take(k));
    } else {
        assert(syms.take(k) =~= syms);
    }
}

/// The length of the name field of a symbol table entry, where the name's
/// length fits in 32 bits.
fn name_field_len(name: Option<&str>) -> (len: Option<u64>)
    ensures
        name is None ==> len == Some(0u64),
        name matches Some(n) ==> (len matches Some(l) ==> utf8(n@).len() <= u32::MAX && l
            == optional_name(Some(n@)).len() && l <= 0x1_0000_0004),
        name matches Some(n) ==> (len is None ==> utf8(n@).len() > u32::MAX),
{
    match name {
        None => Some(0),
        Some(n) => {
            let bytes = n.as_bytes().len();
            if bytes > 0xffff_ffff {
                None
            } else {
                Some(u32_leb_len(bytes as u32) as u64 + bytes as u64)
            }
        },
    }
}

/// The `linking` section of the symbol table: `None` where there is no
/// symbol; an error where the table is too large to encode.
pub fn linking_section(link_info: &LinkInfo) -> (res: Result<Option<LinkingSection>, Error>)
    ensures
        link_info.symbols.len() == 0 ==> res matches Ok(None),
        link_info.symbols.len() > 0 ==> match res {
            Ok(Some(l)) => linking_fits(link_info.symbols@) && linking_bytes(l) == linking_payload(
                link_info.symbols@,
            ),
            Ok(None) => false,
            Err(_) => !linking_fits(link_info.symbols@),
        },
{
    let ghost syms = link_info.symbols@;
    let n = link_info.symbols.len();
    if n == 0 {
        return Ok(None);
    }
    if n >= 0xffff_ffff {
        return Err(Error::new(0, ErrorKind::Inconsistent));
    }
    let mut table = new_symbol_table();
    let mut size: u64 = 0;
    let mut i: usize = 0;
    proof {
        assert(syms.take(0) =~= Seq::<Symbol>::empty());
    }
    while i < n
        invariant
            n == syms.len(),
            n < u32::MAX,
            syms == link_info.symbols@,
            i <= n,
            symbol_table_bytes(table) == symbol_entries(syms.take(i as int)),
            symbol_table_count(table) == i,
            size == symbol_entries(syms.take(i as int)).len(),
            size <= u32::MAX,
            forall|j: int|
                0 <= j < i ==> (#[trigger] symbol_name(syms[j]) matches Some(m) ==> utf8(m).len()
                    <= u32::MAX),
        decreases n - i,
    {
        let ghost before = syms.take(i as int);
        let sym = &link_info.symbols[i];
        let (is_function, index, flags, name): (bool, u32, u32, Option<&str>) = match sym {
            Symbol::FunctionImport { index, explicit_name } => {
                let name = match explicit_name {
                    Some(s) => Some(s.as_str()),
                    None => None,
                };
                let flags = if explicit_name.is_some() {
                    SYM_UNDEFINED + SYM_EXPLICIT_NAME
                } else {
                    SYM_UNDEFINED
                };
                (true, *index, flags, name)
            },
            Symbol::FunctionDefined { index, symbol_name } => (true, *index, 0, Some(symbol_name.as_str())),
            Symbol::TableImport { index, explicit_name } => {
                let name = match explicit_name {
                    Some(s) => Some(s.as_str()),
                    None => None,
                };
                let flags = if explicit_name.is_some() {
                    SYM_UNDEFINED + SYM_EXPLICIT_NAME
                } else {
                    SYM_UNDEFINED
                };
                (false, *index, flags, name)
            },
            Symbol::TableDefined { index, symbol_name } => (false, *index, 0, Some(symbol_name.as_str())),
        };
        proof {
            lemma_entries_grow(syms, i + 1);
            let t = syms.take(i + 1);
            assert(t.drop_last() =~= before);
            assert(t.last() == syms[i as int]);
        }
        let name_len = match name_field_len(name) {
            None => {
                assert(symbol_name(syms[i as int]) matches Some(m) && utf8(m).len() > u32::MAX);
                return Err(Error::new(0, ErrorKind::Inconsistent));
            },
            Some(l) => l,
        };
        let kind_len: u64 = if is_function {
            u32_leb_len(0) as u64
        } else {
            u32_leb_len(5) as u64
        };
        let entry_len: u64 = kind_len + u32_leb_len(flags) as u64 + u32_leb_len(index) as u64 + name_len;
        assert(entry_len == symbol_entry(syms[i as int]).len());
        if size + entry_len > 0xffff_ffff {
            assert(symbol_entries(syms.take(i + 1)).len() > u32::MAX);
            return Err(Error::new(0, ErrorKind::Inconsistent));
        }
        if is_function {
            add_function_symbol(&mut table, flags, index, name);
        } else {
            add_table_symbol(&mut table, flags, index, name);
        }
        size = size + entry_len;
        i += 1;
    }
    proof {
        assert(syms.take(n as int) =~= syms);
        lemma_leb_u32_len(n as nat);
    }
    if u32_leb_len(n as u32) as u64 + size > 0xffff_ffff {
        return Err(Error::new(0, ErrorKind::Inconsistent));
    }
    let table_len = (u32_leb_len(n as u32) as u64 + size) as u32;
    let payload_len: u64 = u32_leb_len(2) as u64 + 1 + u32_leb_len(table_len) as u64 + u32_leb_len(n as u32) as u64
        + size;
    assert(payload_len == linking_payload(syms).len());
    if !custom_fits_exec("linking", payload_len) {
        return Err(Error::new(0, ErrorKind::Inconsistent));
    }
    let mut linking = new_linking_section();
    add_symbol_table(&mut linking, &table);
    Ok(Some(linking))
}

/// The payload a section is emitted with: the patched payload for the code
/// section where there is one, its bytes in the encoded module otherwise.
pub open spec fn section_data(wasm: Seq<u8>, s: RawSection, patched: Option<Seq<u8>>) -> Seq<u8> {
    if s.id == CODE_SECTION_ID && patched is Some {
        patched->0
    } else {
        wasm.subrange(s.start as int, s.end as int)
    }
}

/// A section as a module holds it: its id, its length and its payload.
pub open spec fn encoded_section(id: u8, data: Seq<u8>) -> Seq<u8> {
    seq![id] + leb_u32(data.len()) + data
}

/// The position of the last section that is not a custom section.
pub open spec fn last_non_custom(sections: Seq<RawSection>) -> Option<int>
    decreases sections.len(),
{
    if sections.len() == 0 {
        None
    } else if sections.last().id != 0 {
        Some(sections.len() - 1)
    } else {
        last_non_custom(sections.drop_last())
    }
}

/// The object sections: `linking`, then `reloc.CODE`, each where there is
/// one.
pub open spec fn object_sections(linking: Option<Seq<u8>>, reloc: Option<Seq<u8>>) -> Seq<u8> {
    (match linking {
        Some(l) => seq![0u8] + custom_section("linking"@, l),
        None => seq![],
    }) + (match reloc {
        Some(r) => seq![0u8] + custom_section("reloc.CODE"@, r),
        None => seq![],
    })
}

/// The first `k` sections as emitted, with `object` after the section at
/// `insert` (or before all of them where `insert` is `None`).
pub open spec fn emitted_sections(
    wasm: Seq<u8>,
    sections: Seq<RawSection>,
    patched: Option<Seq<u8>>,
    object: Seq<u8>,
    insert: Option<int>,
    k: int,
) -> Seq<u8>
    decreases k,
{
    if k <= 0 {
        if insert is None {
            object
        } else {
            seq![]
        }
    } else {
        emitted_sections(wasm, sections, patched, object, insert, k - 1) + encoded_section(
            sections[k - 1].id,
            section_data(wasm, sections[k - 1], patched),
        ) + (if insert == Some(k - 1) {
            object
        } else {
            seq![]
        })
    }
}

/// The module emitted: the header, then every section of the encoded
/// module in order with the code section's payload patched, and the object
/// sections right after the last non-custom section.
pub open spec fn emitted_module(
    wasm: Seq<u8>,
    sections: Seq<RawSection>,
    patched: Option<Seq<u8>>,
    linking: Option<Seq<u8>>,
    reloc: Option<Seq<u8>>,
) -> Seq<u8> {
    module_header() + emitted_sections(
        wasm,
        sections,
        patched,
        object_sections(linking, reloc),
        last_non_custom(sections),
        sections.len() as int,
    )
}

/// A custom section of this name and payload can be encoded.
pub open spec fn custom_fits(name: Seq<char>, data: Seq<u8>) -> bool {
    leb_u32(utf8(name).len()).len() + utf8(name).len() + data.len() <= u32::MAX
}

/// Every section's payload, and the object sections, can be encoded.
pub open spec fn emit_fits(
    wasm: Seq<u8>,
    sections: Seq<RawSection>,
    patched: Option<Seq<u8>>,
    linking: Option<Seq<u8>>,
    reloc: Option<Seq<u8>>,
) -> bool {
    &&& forall|i: int|
        0 <= i < sections.len() ==> (#[trigger] section_data(wasm, sections[i], patched)).len() <= u32::MAX
    &&& linking matches Some(l) ==> custom_fits("linking"@, l)
    &&& reloc matches Some(r) ==> custom_fits("reloc.CODE"@, r)
}

pub open spec fn patched_view(p: Option<PatchedCodeSection>) -> Option<Seq<u8>> {
    match p {
        Some(c) => Some(c.payload@),
        None => None,
    }
}

pub open spec fn linking_view(l: Option<LinkingSection>) -> Option<Seq<u8>> {
    match l {
        Some(s) => Some(linking_bytes(s)),
        None => None,
    }
}

pub open spec fn bytes_view(r: Option<Vec<u8>>) -> Option<Seq<u8>> {
    match r {
        Some(v) => Some(v@),
        None => None,
    }
}

proof fn lemma_emitted_step(
    wasm: Seq<u8>,
    secs: Seq<RawSection>,
    patched: Option<Seq<u8>>,
    object: Seq<u8>,
    insert: Option<int>,
    i: int,
    head: Seq<u8>,
)
    requires
        0 <= i,
    ensures
        head + emitted_sections(wasm, secs, patched, object, insert, i + 1) == head + emitted_sections(
            wasm,
            secs,
            patched,
            object,
            insert,
            i,
        ) + encoded_section(secs[i].id, section_data(wasm, secs[i], patched)) + (if insert == Some(i) {
            object
        } else {
            seq![]
        }),
{
    let prev = emitted_sections(wasm, secs, patched, object, insert, i);
    let tail = if insert == Some(i) {
        object
    } else {
        seq![]
    };
    let sec = encoded_section(secs[i].id, section_data(wasm, secs[i], patched));
    assert(emitted_sections(wasm, secs, patched, object, insert, i + 1) == prev + sec + tail);
    assert(head + (prev + sec + tail) =~= head + prev + sec + tail);
}

/// Whether a custom section of this name and payload can be encoded.
fn custom_fits_exec(name: &str, data_len: u64) -> (b: bool)
    ensures
        b == (leb_u32(utf8(name@).len()).len() + utf8(name@).len() + data_len <= u32::MAX),
{
    let n = name.as_bytes().len();
    if n > 0xffff_ffff || data_len > 0xffff_ffff {
        proof {
            lemma_leb_u32_len(utf8(name@).len());
        }
        return false;
    }
    (u32_leb_len(n as u32) as u64) + (n as u64) + (data_len as u64) <= 0xffff_ffff
}

/// Writes the object sections.
fn emit_object_sections(m: &mut Module, linking: &Option<LinkingSection>, reloc: &Option<Vec<u8>>)
    requires
        linking_view(*linking) matches Some(l) ==> custom_fits("linking"@, l),
        bytes_view(*reloc) matches Some(r) ==> custom_fits("reloc.CODE"@, r),
    ensures
        module_bytes(*final(m)) == module_bytes(*old(m)) + object_sections(
            linking_view(*linking),
            bytes_view(*reloc),
        ),
{
    let ghost start = module_bytes(*m);
    match linking {
        Some(l) => add_linking_section(m, l),
        None => {},
    }
    let ghost mid = module_bytes(*m);
    match reloc {
        Some(r) => add_custom_section(m, "reloc.CODE", r.as_slice()),
        None => {},
    }
    proof {
        let a = match linking_view(*linking) {
            Some(l) => seq![0u8] + custom_section("linking"@, l),
            None => seq![],
        };
        let b = match bytes_view(*reloc) {
            Some(r) => seq![0u8] + custom_section("reloc.CODE"@, r),
            None => seq![],
        };
        assert(mid == start + a);
        assert(module_bytes(*m) == mid + b);
        assert(start + a + b =~= start + (a + b));
    }
}

/// The final module: the encoded module's sections, the code section's
/// payload replaced by the patched one, and the `linking` and `reloc.CODE`
/// sections after the last non-custom section. An error where a payload is
/// too large to encode.
#[verifier::spinoff_prover]
#[verifier::rlimit(60)]
pub fn emit_module(
    wasm: &[u8],
    sections: &Vec<RawSection>,
    patched_code: &Option<PatchedCodeSection>,
    linking: &Option<LinkingSection>,
    reloc: &Option<Vec<u8>>,
) -> (res: Result<Vec<u8>, Error>)
    requires
        sections_within(sections@, wasm.len() as int),
        linking_view(*linking) matches Some(l) ==> custom_fits("linking"@, l),
    ensures
        match res {
            Ok(out) => emit_fits(
                wasm@,
                sections@,
                patched_view(*patched_code),
                linking_view(*linking),
                bytes_view(*reloc),
            ) && out@ == emitted_module(
                wasm@,
                sections@,
                patched_view(*patched_code),
                linking_view(*linking),
                bytes_view(*reloc),
            ),
            Err(_) => !emit_fits(
                wasm@,
                sections@,
                patched_view(*patched_code),
                linking_view(*linking),
                bytes_view(*reloc),
            ),
        },
{
    let ghost patched = patched_view(*patched_code);
    let ghost secs = sections@;
    let n = sections.len();
    // Every payload must fit before anything is written.
    let mut i: usize = 0;
    while i < n
        invariant
            n == secs.len(),
            secs == sections@,
            sections_within(secs, wasm.len() as int),
            patched == patched_view(*patched_code),
            i <= n,
            forall|j: int| 0 <= j < i ==> (#[trigger] section_data(wasm@, secs[j], patched)).len() <= u32::MAX,
        decreases n - i,
    {
        let s = sections[i];
        let len = match patched_code {
            Some(c) if s.id == CODE_SECTION_ID => c.payload.len(),
            _ => s.end - s.start,
        };
        assert(len == section_data(wasm@, secs[i as int], patched).len());
        if len > 0xffff_ffff {
            return Err(Error::new(0, ErrorKind::Inconsistent));
        }
        i += 1;
    }
    match reloc {
        Some(r) => {
            if !custom_fits_exec("reloc.CODE", r.len() as u64) {
                return Err(Error::new(0, ErrorKind::Inconsistent));
            }
        },
        None => {},
    }
    // The position of the last non-custom section.
    let mut insert: Option<usize> = None;
    let mut k: usize = n;
    proof {
        assert(secs.take(n as int) =~= secs);
    }
    while k > 0
        invariant_except_break
            insert is None,
        invariant
            k <= n,
            n == secs.len(),
            secs == sections@,
            last_non_custom(secs) == last_non_custom(secs.take(k as int)),
        ensures
            match insert {
                Some(p) => last_non_custom(secs) == Some(p as int),
                None => last_non_custom(secs) is None,
            },
        decreases k,
    {
        proof {
            let t = secs.take(k as int);
            assert(t.drop_last() =~= secs.take(k - 1));
        }
        if sections[k - 1].id != 0 {
            insert = Some(k - 1);
            break;
        }
        k -= 1;
    }
    let mut out = new_module();
    let ghost object = object_sections(linking_view(*linking), bytes_view(*reloc));
    if insert.is_none() {
        emit_object_sections(&mut out, linking, reloc);
    }
    let mut i: usize = 0;
    while i < n
        invariant
            n == secs.len(),
            secs == sections@,
            sections_within(secs, wasm.len() as int),
            patched == patched_view(*patched_code),
            object == object_sections(linking_view(*linking), bytes_view(*reloc)),
            linking_view(*linking) matches Some(l) ==> custom_fits("linking"@, l),
            bytes_view(*reloc) matches Some(r) ==> custom_fits("reloc.CODE"@, r),
            i <= n,
            forall|j: int| 0 <= j < n ==> (#[trigger] section_data(wasm@, secs[j], patched)).len() <= u32::MAX,
            match insert {
                Some(p) => last_non_custom(secs) == Some(p as int),
                None => last_non_custom(secs) is None,
            },
            module_bytes(out) == module_header() + emitted_sections(
                wasm@,
                secs,
                patched,
                object,
                last_non_custom(secs),
                i as int,
            ),
        decreases n - i,
    {
        let s = sections[i];
        let data: &[u8] = match patched_code {
            Some(c) if s.id == CODE_SECTION_ID => c.payload.as_slice(),
            _ => vstd::slice::slice_subrange(wasm, s.start, s.end),
        };
        assert(data@ == section_data(wasm@, secs[i as int], patched));
        add_raw_section(&mut out, s.id, data);
        if insert == Some(i) {
            emit_object_sections(&mut out, linking, reloc);
        }
        proof {
            lemma_emitted_step(wasm@, secs, patched, object, last_non_custom(secs), i as int, module_header());
        }
        i += 1;
    }
    Ok(finish_module(out))
}

} // verus!
