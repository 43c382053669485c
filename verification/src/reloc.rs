//! Which instructions carry relocatable immediates, and where those
//! immediates sit in the encoded function body.

use vstd::prelude::*;

use crate::error::{Error, ErrorKind};
use crate::leb::{
    block_type_len, checked_block_type_len_at, checked_prefixed_start, checked_u32_leb_len_at,
    leb_len_from, prefixed_start_of,
};
use crate::text::str_eq;
use crate::types::SymbolKey;
use crate::wat::InstrKind;
use crate::leb::lemma_leb_len_from_bounds;

verus! {

/// `R_WASM_FUNCTION_INDEX_LEB`
pub const RELOC_FUNCTION_INDEX_LEB: u8 = 0;

/// `R_WASM_TAG_INDEX_LEB`
pub const RELOC_TAG_INDEX_LEB: u8 = 10;

/// `R_WASM_TABLE_NUMBER_LEB`
pub const RELOC_TABLE_NUMBER_LEB: u8 = 20;

/// The relocation type for an item of each kind: function indices, table
/// numbers and tag indices, each as a padded LEB128.
pub open spec fn reloc_type_for(target: SymbolKey) -> u8 {
    match target {
        SymbolKey::Function(_) => RELOC_FUNCTION_INDEX_LEB,
        SymbolKey::Table(_) => RELOC_TABLE_NUMBER_LEB,
        SymbolKey::Tag(_) => RELOC_TAG_INDEX_LEB,
    }
}

/// Every patch has the relocation type of its target's kind.
pub open spec fn patches_typed(ps: Seq<RelocPatch>) -> bool {
    forall|i: int| 0 <= i < ps.len() ==> (#[trigger] ps[i]).reloc_type == reloc_type_for(ps[i].target)
}

/// An immediate of an encoded function body that is rewritten into a padded
/// 5-byte LEB128 and described by a relocation entry.
#[derive(Debug, Clone, Copy, PartialEq, Eq, Structural)]
pub struct RelocPatch {
    /// Offset of the immediate within the function body.
    pub immediate_start: usize,
    /// Byte length of the immediate as it was encoded.
    pub original_len: usize,
    pub reloc_type: u8,
    pub target: SymbolKey,
}

/// A `catch` clause of a decoded `try_table`.
#[derive(Debug, Clone, Copy, PartialEq, Eq, Structural)]
pub enum OperatorCatch {
    One { tag: u32 },
    OneRef { tag: u32 },
    All,
    AllRef,
}

/// A decoded operator, as far as relocations are concerned: the operators
/// whose immediates can be relocated, with the indices they reference, and
/// `Other` for every other operator.
#[derive(Debug, Clone, PartialEq, Eq)]
pub enum RelocOperator {
    Call { function_index: u32 },
    ReturnCall { function_index: u32 },
    Throw { tag_index: u32 },
    CallIndirect { table_index: u32 },
    ReturnCallIndirect { table_index: u32 },
    TableGet { table: u32 },
    TableSet { table: u32 },
    TableInit { table: u32 },
    TableCopy { dst_table: u32, src_table: u32 },
    TableFill { table: u32 },
    TableSize { table: u32 },
    TableGrow { table: u32 },
    TableAtomicGet { table_index: u32 },
    TableAtomicSet { table_index: u32 },
    TableAtomicRmwXchg { table_index: u32 },
    TableAtomicRmwCmpxchg { table_index: u32 },
    TryTable { catches: Vec<OperatorCatch> },
    Other,
}

/// The keywords of the text instructions that `@reloc` may follow.
pub open spec fn spec_is_relocatable_keyword(k: Seq<char>) -> bool {
    ||| k == "call"@
    ||| k == "return_call"@
    ||| k == "throw"@
    ||| k == "try_table"@
    ||| k == "call_indirect"@
    ||| k == "return_call_indirect"@
    ||| k == "table.get"@
    ||| k == "table.set"@
    ||| k == "table.init"@
    ||| k == "table.copy"@
    ||| k == "table.fill"@
    ||| k == "table.size"@
    ||| k == "table.grow"@
    ||| k == "table.atomic.get"@
    ||| k == "table.atomic.set"@
    ||| k == "table.atomic.rmw.xchg"@
    ||| k == "table.atomic.rmw.cmpxchg"@
}

/// Whether `keyword` names an instruction with a relocatable immediate.
pub fn is_relocatable_keyword(keyword: &str) -> (b: bool)
    ensures
        b == spec_is_relocatable_keyword(keyword@),
{
    str_eq(keyword, "call") || str_eq(keyword, "return_call") || str_eq(keyword, "throw")
        || str_eq(keyword, "try_table") || str_eq(keyword, "call_indirect") || str_eq(
        keyword,
        "return_call_indirect",
    ) || str_eq(keyword, "table.get") || str_eq(keyword, "table.set") || str_eq(
        keyword,
        "table.init",
    ) || str_eq(keyword, "table.copy") || str_eq(keyword, "table.fill") || str_eq(
        keyword,
        "table.size",
    ) || str_eq(keyword, "table.grow") || str_eq(keyword, "table.atomic.get") || str_eq(
        keyword,
        "table.atomic.set",
    ) || str_eq(keyword, "table.atomic.rmw.xchg") || str_eq(keyword, "table.atomic.rmw.cmpxchg")
}

/// The patch for the `u32` immediate at `start`, if one is encoded there.
pub open spec fn patch_at(s: Seq<u8>, start: int, reloc_type: u8, target: SymbolKey) -> Option<
    RelocPatch,
> {
    match leb_len_from(s, start, 5) {
        Some(l) => Some(
            RelocPatch {
                immediate_start: start as usize,
                original_len: l as usize,
                reloc_type,
                target,
            },
        ),
        None => None,
    }
}

pub open spec fn single_patch(p: Option<RelocPatch>) -> Option<Option<Seq<RelocPatch>>> {
    match p {
        Some(p) => Some(Some(seq![p])),
        None => None,
    }
}

/// The patch for the immediate that follows another `u32` immediate at
/// `start`.
pub open spec fn patch_after_leb(s: Seq<u8>, start: int, reloc_type: u8, target: SymbolKey) -> Option<
    RelocPatch,
> {
    match leb_len_from(s, start, 5) {
        Some(l) => patch_at(s, start + l, reloc_type, target),
        None => None,
    }
}

/// The tag patches of the `catch` clauses of a `try_table`, the first clause
/// starting at `cursor`: a kind byte, the tag (for `catch`/`catch_ref`) and
/// the label. `None` where the clauses are not encoded as expected.
pub open spec fn catch_patches(s: Seq<u8>, catches: Seq<OperatorCatch>, cursor: int) -> Option<
    Seq<RelocPatch>,
>
    decreases catches.len(),
{
    if catches.len() == 0 {
        Some(seq![])
    } else {
        let c = cursor + 1;
        match catches[0] {
            OperatorCatch::One { tag } | OperatorCatch::OneRef { tag } => match leb_len_from(
                s,
                c,
                5,
            ) {
                Some(l) => match leb_len_from(s, c + l, 5) {
                    Some(l2) => match catch_patches(s, catches.drop_first(), c + l + l2) {
                        Some(rest) => Some(
                            seq![
                                RelocPatch {
                                    immediate_start: c as usize,
                                    original_len: l as usize,
                                    reloc_type: RELOC_TAG_INDEX_LEB,
                                    target: SymbolKey::Tag(tag),
                                },
                            ] + rest,
                        ),
                        None => None,
                    },
                    None => None,
                },
                None => None,
            },
            _ => match leb_len_from(s, c, 5) {
                Some(l2) => catch_patches(s, catches.drop_first(), c + l2),
                None => None,
            },
        }
    }
}

/// The patches of a `try_table` at `offset`: past the opcode, the block type
/// and the clause count come the clauses.
pub open spec fn try_table_patches_of(s: Seq<u8>, offset: int, catches: Seq<OperatorCatch>) -> Option<
    Seq<RelocPatch>,
> {
    match block_type_len(s, offset + 1) {
        Some(b) => match leb_len_from(s, offset + 1 + b, 5) {
            Some(n) => catch_patches(s, catches, offset + 1 + b + n),
            None => None,
        },
        None => None,
    }
}

proof fn lemma_catch_patches_typed(s: Seq<u8>, catches: Seq<OperatorCatch>, cursor: int)
    ensures
        catch_patches(s, catches, cursor) matches Some(ps) ==> patches_typed(ps),
    decreases catches.len(),
{
    if catches.len() > 0 {
        let c = cursor + 1;
        match catches[0] {
            OperatorCatch::One { tag } | OperatorCatch::OneRef { tag } => {
                if let Some(l) = leb_len_from(s, c, 5) {
                    if let Some(l2) = leb_len_from(s, c + l, 5) {
                        lemma_catch_patches_typed(s, catches.drop_first(), c + l + l2);
                        if let Some(rest) = catch_patches(s, catches.drop_first(), c + l + l2) {
                            let p = RelocPatch {
                                immediate_start: c as usize,
                                original_len: l as usize,
                                reloc_type: RELOC_TAG_INDEX_LEB,
                                target: SymbolKey::Tag(tag),
                            };
                            let ps = seq![p] + rest;
                            assert forall|i: int| 0 <= i < ps.len() implies (#[trigger] ps[i]).reloc_type
                                == reloc_type_for(ps[i].target) by {
                                if i > 0 {
                                    assert(ps[i] == rest[i - 1]);
                                }
                            }
                        }
                    }
                }
            },
            _ => {
                if let Some(l2) = leb_len_from(s, c, 5) {
                    lemma_catch_patches_typed(s, catches.drop_first(), c + l2);
                }
            },
        }
    }
}

/// Where the relocated immediate of an operator lies. For a direct call, a
/// `return_call`, a `throw`, `table.get` and `table.set` it is the LEB128
/// number right after the opcode. For `call_indirect` and
/// `return_call_indirect` the opcode is followed by the type index and then
/// the table number, and it is the table number, never the type index, that
/// is relocated, as a table number. The patch keeps the immediate's
/// original length, and the operator has no patch exactly where those
/// numbers are not there.
pub proof fn law_operator_immediate_positions(op: RelocOperator, offset: int, s: Seq<u8>)
    requires
        0 <= offset,
        s.len() <= usize::MAX,
    ensures
        (op is Call || op is ReturnCall || op is Throw || op is TableGet || op is TableSet) ==> match leb_len_from(
            s,
            offset + 1,
            5,
        ) {
            Some(l) => spec_operator_patches(op, offset, s) matches Some(Some(ps)) && ps.len() == 1
                && ps[0].immediate_start == offset + 1 && ps[0].original_len == l,
            None => spec_operator_patches(op, offset, s) is None,
        },
        (op is CallIndirect || op is ReturnCallIndirect) ==> match leb_len_from(s, offset + 1, 5) {
            Some(n) => match leb_len_from(s, offset + 1 + n, 5) {
                Some(l) => spec_operator_patches(op, offset, s) matches Some(Some(ps)) && ps.len() == 1
                    && ps[0].immediate_start == offset + 1 + n && ps[0].original_len == l && ps[0].reloc_type
                    == RELOC_TABLE_NUMBER_LEB && ps[0].target == SymbolKey::Table(
                    match op {
                        RelocOperator::CallIndirect { table_index } => table_index,
                        RelocOperator::ReturnCallIndirect { table_index } => table_index,
                        _ => 0,
                    },
                ),
                None => spec_operator_patches(op, offset, s) is None,
            },
            None => spec_operator_patches(op, offset, s) is None,
        },
{
    lemma_leb_len_from_bounds(s, offset + 1, 5);
    if let Some(n) = leb_len_from(s, offset + 1, 5) {
        lemma_leb_len_from_bounds(s, offset + 1 + n, 5);
    }
}

/// Where the relocated table numbers of the prefixed table instructions lie,
/// `p` being where the immediates start after the prefix and its
/// sub-opcode: `table.fill`, `table.size` and `table.grow` have the table
/// number at `p`; `table.init` has the element index at `p` and the table
/// after it; `table.copy` has the destination table at `p` and the source
/// table after it, both relocated in that order; the atomic table
/// instructions have an ordering byte at `p` and the table after it.
pub proof fn law_prefixed_table_positions(op: RelocOperator, offset: int, s: Seq<u8>)
    requires
        0 <= offset,
        s.len() <= usize::MAX,
    ensures
        match prefixed_start_of(s, offset) {
            None => (op is TableFill || op is TableSize || op is TableGrow || op is TableInit || op is TableCopy
                || op is TableAtomicGet || op is TableAtomicSet || op is TableAtomicRmwXchg
                || op is TableAtomicRmwCmpxchg) ==> spec_operator_patches(op, offset, s) is None,
            Some(p) => {
                &&& (op is TableFill || op is TableSize || op is TableGrow) ==> match leb_len_from(s, p, 5) {
                    Some(l) => spec_operator_patches(op, offset, s) matches Some(Some(ps)) && ps.len() == 1
                        && ps[0].immediate_start == p && ps[0].original_len == l,
                    None => spec_operator_patches(op, offset, s) is None,
                }
                &&& op is TableInit ==> match leb_len_from(s, p, 5) {
                    Some(e) => match leb_len_from(s, p + e, 5) {
                        Some(l) => spec_operator_patches(op, offset, s) matches Some(Some(ps)) && ps.len() == 1
                            && ps[0].immediate_start == p + e && ps[0].original_len == l,
                        None => spec_operator_patches(op, offset, s) is None,
                    },
                    None => spec_operator_patches(op, offset, s) is None,
                }
                &&& op matches RelocOperator::TableCopy { dst_table, src_table } ==> match leb_len_from(s, p, 5) {
                    Some(d) => match leb_len_from(s, p + d, 5) {
                        Some(l) => spec_operator_patches(op, offset, s) matches Some(Some(ps)) && ps.len() == 2
                            && ps[0].immediate_start == p && ps[0].original_len == d && ps[0].target
                            == SymbolKey::Table(dst_table) && ps[1].immediate_start == p + d && ps[1].original_len
                            == l && ps[1].target == SymbolKey::Table(src_table),
                        None => spec_operator_patches(op, offset, s) is None,
                    },
                    None => spec_operator_patches(op, offset, s) is None,
                }
                &&& (op is TableAtomicGet || op is TableAtomicSet || op is TableAtomicRmwXchg
                    || op is TableAtomicRmwCmpxchg) ==> match leb_len_from(s, p + 1, 5) {
                    Some(l) => spec_operator_patches(op, offset, s) matches Some(Some(ps)) && ps.len() == 1
                        && ps[0].immediate_start == p + 1 && ps[0].original_len == l,
                    None => spec_operator_patches(op, offset, s) is None,
                }
            },
        },
{
    lemma_leb_len_from_bounds(s, offset + 1, 5);
    if let Some(p) = prefixed_start_of(s, offset) {
        lemma_leb_len_from_bounds(s, p, 5);
        lemma_leb_len_from_bounds(s, p + 1, 5);
        if let Some(e) = leb_len_from(s, p, 5) {
            lemma_leb_len_from_bounds(s, p + e, 5);
        }
    }
}

/// A direct call, `return_call` and `throw` relocate their index as a
/// function index or a tag index, for the function or tag they name.
pub proof fn law_call_targets(op: RelocOperator, offset: int, s: Seq<u8>)
    ensures
        op matches RelocOperator::Call { function_index } ==> (spec_operator_patches(op, offset, s) matches Some(
            Some(ps),
        ) ==> ps[0].reloc_type == RELOC_FUNCTION_INDEX_LEB && ps[0].target == SymbolKey::Function(function_index)),
        op matches RelocOperator::ReturnCall { function_index } ==> (spec_operator_patches(
            op,
            offset,
            s,
        ) matches Some(Some(ps)) ==> ps[0].reloc_type == RELOC_FUNCTION_INDEX_LEB && ps[0].target
            == SymbolKey::Function(function_index)),
        op matches RelocOperator::Throw { tag_index } ==> (spec_operator_patches(op, offset, s) matches Some(
            Some(ps),
        ) ==> ps[0].reloc_type == RELOC_TAG_INDEX_LEB && ps[0].target == SymbolKey::Tag(tag_index)),
{
}

/// The text keyword of each relocatable instruction variant that `wast`
/// parses (`try_table` aside, which has its own keyword).
pub open spec fn instr_keyword(kind: InstrKind) -> Seq<char> {
    match kind {
        InstrKind::Call => "call"@,
        InstrKind::ReturnCall => "return_call"@,
        InstrKind::Throw => "throw"@,
        InstrKind::CallIndirect => "call_indirect"@,
        InstrKind::ReturnCallIndirect => "return_call_indirect"@,
        InstrKind::TableInit => "table.init"@,
        InstrKind::TableCopy => "table.copy"@,
        InstrKind::TableGet => "table.get"@,
        InstrKind::TableSet => "table.set"@,
        InstrKind::TableFill => "table.fill"@,
        InstrKind::TableSize => "table.size"@,
        InstrKind::TableGrow => "table.grow"@,
        InstrKind::TableAtomicGet => "table.atomic.get"@,
        InstrKind::TableAtomicSet => "table.atomic.set"@,
        InstrKind::TableAtomicRmwXchg => "table.atomic.rmw.xchg"@,
        InstrKind::TableAtomicRmwCmpxchg => "table.atomic.rmw.cmpxchg"@,
        InstrKind::Other => Seq::empty(),
    }
}

/// `@reloc` may follow every instruction with a relocatable immediate: the
/// keyword of every relocatable instruction variant, and `try_table`, is
/// accepted as the instruction a following `(@reloc)` marks.
pub proof fn law_relocatable_keywords_accepted(kind: InstrKind)
    ensures
        !(kind is Other) ==> spec_is_relocatable_keyword(instr_keyword(kind)),
        spec_is_relocatable_keyword("try_table"@),
{
}

/// The relocation type of each patch of an operator is that of its target's
/// kind.
pub proof fn lemma_operator_patches_typed(op: RelocOperator, offset: int, s: Seq<u8>)
    ensures
        spec_operator_patches(op, offset, s) matches Some(Some(ps)) ==> patches_typed(ps),
{
    if let RelocOperator::TryTable { catches } = op {
        if let Some(b) = block_type_len(s, offset + 1) {
            if let Some(n) = leb_len_from(s, offset + 1 + b, 5) {
                lemma_catch_patches_typed(s, catches@, offset + 1 + b + n);
            }
        }
    }
}

/// The relocatable immediates of operator `op` encoded at `offset` of the body
/// `s`: `Some(None)` for an operator without any, `Some(Some(patches))` for
/// one with them, and `None` where the bytes do not hold the immediates the
/// operator calls for.
pub open spec fn spec_operator_patches(op: RelocOperator, offset: int, s: Seq<u8>) -> Option<
    Option<Seq<RelocPatch>>,
> {
    let table = RELOC_TABLE_NUMBER_LEB;
    match op {
        RelocOperator::Call { function_index } | RelocOperator::ReturnCall { function_index } => single_patch(
            patch_at(s, offset + 1, RELOC_FUNCTION_INDEX_LEB, SymbolKey::Function(function_index)),
        ),
        RelocOperator::Throw { tag_index } => single_patch(
            patch_at(s, offset + 1, RELOC_TAG_INDEX_LEB, SymbolKey::Tag(tag_index)),
        ),
        RelocOperator::CallIndirect { table_index }
        | RelocOperator::ReturnCallIndirect { table_index } => single_patch(
            patch_after_leb(s, offset + 1, table, SymbolKey::Table(table_index)),
        ),
        RelocOperator::TableGet { table: t } | RelocOperator::TableSet { table: t } => single_patch(
            patch_at(s, offset + 1, table, SymbolKey::Table(t)),
        ),
        RelocOperator::TableInit { table: t } => match prefixed_start_of(s, offset) {
            Some(e) => single_patch(patch_after_leb(s, e, table, SymbolKey::Table(t))),
            None => None,
        },
        RelocOperator::TableCopy { dst_table, src_table } => match prefixed_start_of(s, offset) {
            Some(f) => match (
                patch_at(s, f, table, SymbolKey::Table(dst_table)),
                patch_after_leb(s, f, table, SymbolKey::Table(src_table)),
            ) {
                (Some(p1), Some(p2)) => Some(Some(seq![p1, p2])),
                _ => None,
            },
            None => None,
        },
        RelocOperator::TableFill { table: t }
        | RelocOperator::TableSize { table: t }
        | RelocOperator::TableGrow { table: t } => match prefixed_start_of(s, offset) {
            Some(st) => single_patch(patch_at(s, st, table, SymbolKey::Table(t))),
            None => None,
        },
        RelocOperator::TableAtomicGet { table_index }
        | RelocOperator::TableAtomicSet { table_index }
        | RelocOperator::TableAtomicRmwXchg { table_index }
        | RelocOperator::TableAtomicRmwCmpxchg { table_index } => match prefixed_start_of(
            s,
            offset,
        ) {
            Some(st) => single_patch(patch_at(s, st + 1, table, SymbolKey::Table(table_index))),
            None => None,
        },
        RelocOperator::TryTable { catches } => match try_table_patches_of(s, offset, catches@) {
            Some(ps) => Some(Some(ps)),
            None => None,
        },
        RelocOperator::Other => Some(None),
    }
}

fn malformed() -> (e: Error)
    ensures
        e.kind == ErrorKind::Inconsistent,
{
    Error::new(0, ErrorKind::Inconsistent)
}

fn checked_patch_at(body: &[u8], start: usize, reloc_type: u8, target: SymbolKey) -> (p: Option<
    RelocPatch,
>)
    ensures
        p == patch_at(body@, start as int, reloc_type, target),
        p matches Some(p) ==> p.immediate_start + p.original_len <= body.len(),
{
    match checked_u32_leb_len_at(body, start) {
        Some(len) => Some(
            RelocPatch { immediate_start: start, original_len: len, reloc_type, target },
        ),
        None => None,
    }
}

fn checked_patch_after_leb(body: &[u8], start: usize, reloc_type: u8, target: SymbolKey) -> (p:
    Option<RelocPatch>)
    ensures
        p == patch_after_leb(body@, start as int, reloc_type, target),
{
    match checked_u32_leb_len_at(body, start) {
        Some(len) => checked_patch_at(body, start + len, reloc_type, target),
        None => None,
    }
}

fn one(p: Option<RelocPatch>) -> (r: Result<Option<Vec<RelocPatch>>, Error>)
    ensures
        match single_patch(p) {
            Some(Some(ps)) => r matches Ok(Some(v)) && v@ == ps,
            _ => r is Err,
        },
{
    match p {
        Some(p) => {
            let v = vec![p];
            assert(v@ =~= seq![p]);
            Ok(Some(v))
        },
        None => Err(malformed()),
    }
}

/// The relocatable immediates of the operator `operator` that starts at
/// `offset` in the function body `body`; `Ok(None)` for an operator without
/// them.
pub fn operator_patches(operator: &RelocOperator, offset: usize, body: &[u8]) -> (res: Result<
    Option<Vec<RelocPatch>>,
    Error,
>)
    ensures
        match spec_operator_patches(*operator, offset as int, body@) {
            Some(Some(ps)) => res matches Ok(Some(v)) && v@ == ps,
            Some(None) => res matches Ok(None),
            None => res is Err,
        },
{
    let table = RELOC_TABLE_NUMBER_LEB;
    if let RelocOperator::TryTable { catches } = operator {
        return match try_table_patches(offset, body, catches) {
            Some(ps) => Ok(Some(ps)),
            None => Err(malformed()),
        };
    }
    if offset >= body.len() {
        return match operator {
            RelocOperator::Other => Ok(None),
            _ => {
                proof {
                    assert(leb_len_from(body@, offset + 1, 5) is None);
                    assert(leb_len_from(body@, offset + 1, 5) is None);
                }
                Err(malformed())
            },
        };
    }
    match operator {
        RelocOperator::Call { function_index } | RelocOperator::ReturnCall { function_index } => {
            one(
                checked_patch_at(
                    body,
                    offset + 1,
                    RELOC_FUNCTION_INDEX_LEB,
                    SymbolKey::Function(*function_index),
                ),
            )
        },
        RelocOperator::Throw { tag_index } => {
            one(checked_patch_at(body, offset + 1, RELOC_TAG_INDEX_LEB, SymbolKey::Tag(*tag_index)))
        },
        RelocOperator::CallIndirect { table_index }
        | RelocOperator::ReturnCallIndirect { table_index } => {
            one(checked_patch_after_leb(body, offset + 1, table, SymbolKey::Table(*table_index)))
        },
        RelocOperator::TableGet { table: t } | RelocOperator::TableSet { table: t } => {
            one(checked_patch_at(body, offset + 1, table, SymbolKey::Table(*t)))
        },
        RelocOperator::TableInit { table: t } => match checked_prefixed_start(offset, body) {
            Some(elem_start) => one(
                checked_patch_after_leb(body, elem_start, table, SymbolKey::Table(*t)),
            ),
            None => Err(malformed()),
        },
        RelocOperator::TableCopy { dst_table, src_table } => match checked_prefixed_start(
            offset,
            body,
        ) {
            Some(first) => {
                let p1 = checked_patch_at(body, first, table, SymbolKey::Table(*dst_table));
                let p2 = checked_patch_after_leb(body, first, table, SymbolKey::Table(*src_table));
                match (p1, p2) {
                    (Some(p1), Some(p2)) => {
                        let v = vec![p1, p2];
                        assert(v@ =~= seq![p1, p2]);
                        Ok(Some(v))
                    },
                    _ => Err(malformed()),
                }
            },
            None => Err(malformed()),
        },
        RelocOperator::TableFill { table: t }
        | RelocOperator::TableSize { table: t }
        | RelocOperator::TableGrow { table: t } => {
            prefixed_table_patch(offset, body, SymbolKey::Table(*t))
        },
        RelocOperator::TableAtomicGet { table_index }
        | RelocOperator::TableAtomicSet { table_index }
        | RelocOperator::TableAtomicRmwXchg { table_index }
        | RelocOperator::TableAtomicRmwCmpxchg { table_index } => {
            prefixed_table_atomic_patch(offset, body, *table_index)
        },
        RelocOperator::TryTable { .. } => Err(malformed()),
        RelocOperator::Other => Ok(None),
    }
}

/// The table immediate of `table.fill`, `table.size` or `table.grow`, which
/// directly follows the sub-opcode.
pub fn prefixed_table_patch(offset: usize, body: &[u8], target: SymbolKey) -> (res: Result<
    Option<Vec<RelocPatch>>,
    Error,
>)
    ensures
        match prefixed_start_of(body@, offset as int) {
            Some(st) => match single_patch(patch_at(body@, st, RELOC_TABLE_NUMBER_LEB, target)) {
                Some(Some(ps)) => res matches Ok(Some(v)) && v@ == ps,
                _ => res is Err,
            },
            None => res is Err,
        },
{
    match checked_prefixed_start(offset, body) {
        Some(start) => one(checked_patch_at(body, start, RELOC_TABLE_NUMBER_LEB, target)),
        None => Err(malformed()),
    }
}

/// The table immediate of an atomic table instruction, which follows the
/// sub-opcode and the one-byte memory ordering.
pub fn prefixed_table_atomic_patch(offset: usize, body: &[u8], table_index: u32) -> (res: Result<
    Option<Vec<RelocPatch>>,
    Error,
>)
    ensures
        match prefixed_start_of(body@, offset as int) {
            Some(st) => match single_patch(
                patch_at(body@, st + 1, RELOC_TABLE_NUMBER_LEB, SymbolKey::Table(table_index)),
            ) {
                Some(Some(ps)) => res matches Ok(Some(v)) && v@ == ps,
                _ => res is Err,
            },
            None => res is Err,
        },
{
    match checked_prefixed_start(offset, body) {
        Some(start) => {
            if start >= body.len() {
                assert(leb_len_from(body@, start + 1, 5) is None);
                return Err(malformed());
            }
            one(
                checked_patch_at(
                    body,
                    start + 1,
                    RELOC_TABLE_NUMBER_LEB,
                    SymbolKey::Table(table_index),
                ),
            )
        },
        None => Err(malformed()),
    }
}

/// The tag patches of the `catch`/`catch_ref` clauses of the `try_table` at
/// `offset`; `None` where the encoding is not as expected.
pub fn try_table_patches(offset: usize, body: &[u8], catches: &Vec<OperatorCatch>) -> (res: Option<
    Vec<RelocPatch>,
>)
    ensures
        match try_table_patches_of(body@, offset as int, catches@) {
            Some(ps) => res matches Some(v) && v@ == ps,
            None => res is None,
        },
{
    if offset >= body.len() {
        return None;
    }
    let block_len = match checked_block_type_len_at(body, offset + 1) {
        Some(l) => l,
        None => return None,
    };
    let count_len = match checked_u32_leb_len_at(body, offset + 1 + block_len) {
        Some(l) => l,
        None => return None,
    };
    let mut cursor = offset + 1 + block_len + count_len;
    let ghost start = cursor as int;
    let mut patches: Vec<RelocPatch> = Vec::new();
    let mut i: usize = 0;
    proof {
        assert(catches@.skip(0) =~= catches@);
        if let Some(r) = catch_patches(body@, catches@, start) {
            assert(patches@ + r =~= r);
        }
    }
    while i < catches.len()
        invariant
            i <= catches.len(),
            cursor <= body.len(),
            try_table_patches_of(body@, offset as int, catches@) == catch_patches(
                body@,
                catches@,
                start,
            ),
            catch_patches(body@, catches@, start) == prepend(
                patches@,
                catch_patches(body@, catches@.skip(i as int), cursor as int),
            ),
        decreases catches.len() - i,
    {
        let ghost rest = catches@.skip(i as int);
        assert(rest[0] == catches@[i as int]);
        assert(rest.drop_first() =~= catches@.skip(i + 1));
        if cursor >= body.len() {
            assert(leb_len_from(body@, cursor + 1, 5) is None);
            return None;
        }
        cursor += 1;
        match catches[i] {
            OperatorCatch::One { tag } | OperatorCatch::OneRef { tag } => {
                let original_len = match checked_u32_leb_len_at(body, cursor) {
                    Some(l) => l,
                    None => return None,
                };
                let label_len = match checked_u32_leb_len_at(body, cursor + original_len) {
                    Some(l) => l,
                    None => return None,
                };
                let p = RelocPatch {
                    immediate_start: cursor,
                    original_len,
                    reloc_type: RELOC_TAG_INDEX_LEB,
                    target: SymbolKey::Tag(tag),
                };
                proof {
                    let tail = catch_patches(body@, catches@.skip(i + 1), (cursor + original_len + label_len) as int);
                    assert(tail is Some ==> seq![p] + tail.unwrap() =~= seq![p] + tail.unwrap());
                    if let Some(t) = tail {
                        assert(patches@.push(p) + t =~= patches@ + (seq![p] + t));
                    }
                }
                patches.push(p);
                cursor = cursor + original_len + label_len;
            },
            OperatorCatch::All | OperatorCatch::AllRef => {
                let label_len = match checked_u32_leb_len_at(body, cursor) {
                    Some(l) => l,
                    None => return None,
                };
                cursor = cursor + label_len;
            },
        }
        i += 1;
    }
    proof {
        assert(catches@.skip(i as int) =~= Seq::<OperatorCatch>::empty());
        assert(patches@ + seq![] =~= patches@);
    }
    Some(patches)
}

/// `ps` put in front of the patches in `rest`, if there are any.
pub open spec fn prepend(ps: Seq<RelocPatch>, rest: Option<Seq<RelocPatch>>) -> Option<Seq<RelocPatch>> {
    match rest {
        Some(r) => Some(ps + r),
        None => None,
    }
}


/// An index of the text format: numeric, or a symbolic identifier that the
/// resolver did not turn into a number.
#[derive(Debug, Clone, Copy, PartialEq, Eq, Structural)]
pub enum TextIndex {
    Num(u32),
    Id,
}

/// A `catch` clause of a text `try_table`.
#[derive(Debug, Clone, Copy, PartialEq, Eq, Structural)]
pub enum TextCatch {
    Catch(TextIndex),
    CatchRef(TextIndex),
    CatchAll,
    CatchAllRef,
}

/// A text instruction, as far as relocations are concerned: the instructions
/// whose immediates can be relocated, with the indices they reference, and
/// `Other` for every other instruction.
#[derive(Debug, Clone, PartialEq, Eq)]
pub enum RelocInstruction {
    Call(TextIndex),
    ReturnCall(TextIndex),
    Throw(TextIndex),
    TryTable(Vec<TextCatch>),
    CallIndirect(TextIndex),
    ReturnCallIndirect(TextIndex),
    TableGet(TextIndex),
    TableSet(TextIndex),
    TableFill(TextIndex),
    TableSize(TextIndex),
    TableGrow(TextIndex),
    TableInit(TextIndex),
    TableCopy(TextIndex, TextIndex),
    TableAtomicGet(TextIndex),
    TableAtomicSet(TextIndex),
    TableAtomicRmwXchg(TextIndex),
    TableAtomicRmwCmpxchg(TextIndex),
    Other,
}

/// The number of a resolved index.
pub fn index_as_u32(index: TextIndex) -> (n: u32)
    requires
        index is Num,
    ensures
        index == TextIndex::Num(n),
{
    match index {
        TextIndex::Num(n) => n,
        TextIndex::Id => 0,
    }
}

pub open spec fn catch_resolved(c: TextCatch) -> bool {
    match c {
        TextCatch::Catch(t) => t is Num,
        TextCatch::CatchRef(t) => t is Num,
        _ => true,
    }
}

/// Every index the instruction references is numeric.
pub open spec fn instruction_resolved(instr: RelocInstruction) -> bool {
    match instr {
        RelocInstruction::TryTable(catches) => forall|k: int|
            0 <= k < catches@.len() ==> catch_resolved(#[trigger] catches@[k]),
        RelocInstruction::TableCopy(d, s) => d is Num && s is Num,
        RelocInstruction::Other => true,
        RelocInstruction::Call(i) | RelocInstruction::ReturnCall(i) | RelocInstruction::Throw(i)
        | RelocInstruction::CallIndirect(i) | RelocInstruction::ReturnCallIndirect(i)
        | RelocInstruction::TableGet(i) | RelocInstruction::TableSet(i)
        | RelocInstruction::TableFill(i) | RelocInstruction::TableSize(i)
        | RelocInstruction::TableGrow(i) | RelocInstruction::TableInit(i)
        | RelocInstruction::TableAtomicGet(i) | RelocInstruction::TableAtomicSet(i)
        | RelocInstruction::TableAtomicRmwXchg(i) | RelocInstruction::TableAtomicRmwCmpxchg(
            i,
        ) => i is Num,
    }
}

pub open spec fn num(i: TextIndex) -> u32 {
    match i {
        TextIndex::Num(n) => n,
        TextIndex::Id => 0,
    }
}

/// The tags that the `catch`/`catch_ref` clauses of a `try_table` reference,
/// in order.
pub open spec fn catch_targets(catches: Seq<TextCatch>) -> Seq<SymbolKey>
    decreases catches.len(),
{
    if catches.len() == 0 {
        seq![]
    } else {
        match catches[0] {
            TextCatch::Catch(t) | TextCatch::CatchRef(t) => seq![SymbolKey::Tag(num(t))]
                + catch_targets(catches.drop_first()),
            _ => catch_targets(catches.drop_first()),
        }
    }
}

/// The items a relocatable instruction references; `None` for other
/// instructions.
pub open spec fn spec_instruction_targets(instr: RelocInstruction) -> Option<Seq<SymbolKey>> {
    match instr {
        RelocInstruction::Call(i) | RelocInstruction::ReturnCall(i) => Some(
            seq![SymbolKey::Function(num(i))],
        ),
        RelocInstruction::Throw(i) => Some(seq![SymbolKey::Tag(num(i))]),
        RelocInstruction::TryTable(catches) => Some(catch_targets(catches@)),
        RelocInstruction::CallIndirect(i) | RelocInstruction::ReturnCallIndirect(i)
        | RelocInstruction::TableGet(i) | RelocInstruction::TableSet(i)
        | RelocInstruction::TableFill(i) | RelocInstruction::TableSize(i)
        | RelocInstruction::TableGrow(i) | RelocInstruction::TableInit(i)
        | RelocInstruction::TableAtomicGet(i) | RelocInstruction::TableAtomicSet(i)
        | RelocInstruction::TableAtomicRmwXchg(i) | RelocInstruction::TableAtomicRmwCmpxchg(
            i,
        ) => Some(seq![SymbolKey::Table(num(i))]),
        RelocInstruction::TableCopy(d, s) => Some(
            seq![SymbolKey::Table(num(d)), SymbolKey::Table(num(s))],
        ),
        RelocInstruction::Other => None,
    }
}

fn catches_resolved(catches: &Vec<TextCatch>) -> (b: bool)
    ensures
        b == forall|j: int| 0 <= j < catches@.len() ==> catch_resolved(#[trigger] catches@[j]),
{
    let mut k: usize = 0;
    while k < catches.len()
        invariant
            k <= catches.len(),
            forall|j: int| 0 <= j < k ==> catch_resolved(#[trigger] catches@[j]),
        decreases catches.len() - k,
    {
        match catches[k] {
            TextCatch::Catch(TextIndex::Id) | TextCatch::CatchRef(TextIndex::Id) => {
                assert(!catch_resolved(catches@[k as int]));
                return false;
            },
            _ => {},
        }
        k += 1;
    }
    true
}

impl RelocInstruction {
    /// Whether every index the instruction references is numeric.
    pub fn is_resolved(&self) -> (b: bool)
        ensures
            b == instruction_resolved(*self),
    {
        match self {
            RelocInstruction::TryTable(catches) => catches_resolved(catches),
            RelocInstruction::TableCopy(d, s) => matches!(d, TextIndex::Num(_)) && matches!(
                s,
                TextIndex::Num(_)
            ),
            RelocInstruction::Other => true,
            RelocInstruction::Call(i) | RelocInstruction::ReturnCall(i) | RelocInstruction::Throw(i)
            | RelocInstruction::CallIndirect(i) | RelocInstruction::ReturnCallIndirect(i)
            | RelocInstruction::TableGet(i) | RelocInstruction::TableSet(i)
            | RelocInstruction::TableFill(i) | RelocInstruction::TableSize(i)
            | RelocInstruction::TableGrow(i) | RelocInstruction::TableInit(i)
            | RelocInstruction::TableAtomicGet(i) | RelocInstruction::TableAtomicSet(i)
            | RelocInstruction::TableAtomicRmwXchg(i)
            | RelocInstruction::TableAtomicRmwCmpxchg(i) => matches!(i, TextIndex::Num(_)),
        }
    }
}

/// The items that a relocatable text instruction references, in the order of
/// its immediates; `None` for an instruction without relocatable immediates.
pub fn instruction_targets(instr: &RelocInstruction) -> (targets: Option<Vec<SymbolKey>>)
    requires
        instruction_resolved(*instr),
    ensures
        match spec_instruction_targets(*instr) {
            Some(t) => targets matches Some(v) && v@ == t,
            None => targets is None,
        },
{
    match instr {
        RelocInstruction::Call(i) | RelocInstruction::ReturnCall(i) => {
            let v = vec![SymbolKey::Function(index_as_u32(*i))];
            assert(v@ =~= seq![SymbolKey::Function(num(*i))]);
            Some(v)
        },
        RelocInstruction::Throw(i) => {
            let v = vec![SymbolKey::Tag(index_as_u32(*i))];
            assert(v@ =~= seq![SymbolKey::Tag(num(*i))]);
            Some(v)
        },
        RelocInstruction::TryTable(catches) => {
            let mut v: Vec<SymbolKey> = Vec::new();
            let mut k = catches.len();
            while k > 0
                invariant
                    k <= catches.len(),
                    forall|j: int| 0 <= j < catches@.len() ==> catch_resolved(#[trigger] catches@[j]),
                    v@ == catch_targets(catches@.skip(k as int)),
                decreases k,
            {
                let c = catches[k - 1];
                assert(catch_resolved(catches@[k - 1]));
                let ghost tail = catches@.skip(k as int);
                assert(catches@.skip(k - 1).drop_first() =~= tail);
                assert(catches@.skip(k - 1)[0] == c);
                match c {
                    TextCatch::Catch(t) | TextCatch::CatchRef(t) => {
                        let key = SymbolKey::Tag(index_as_u32(t));
                        v.insert(0, key);
                        assert(v@ =~= seq![key] + catch_targets(tail));
                    },
                    TextCatch::CatchAll | TextCatch::CatchAllRef => {},
                }
                k -= 1;
            }
            assert(catches@.skip(0) =~= catches@);
            Some(v)
        },
        RelocInstruction::CallIndirect(i) | RelocInstruction::ReturnCallIndirect(i)
        | RelocInstruction::TableGet(i) | RelocInstruction::TableSet(i)
        | RelocInstruction::TableFill(i) | RelocInstruction::TableSize(i)
        | RelocInstruction::TableGrow(i) | RelocInstruction::TableInit(i)
        | RelocInstruction::TableAtomicGet(i) | RelocInstruction::TableAtomicSet(i)
        | RelocInstruction::TableAtomicRmwXchg(i) | RelocInstruction::TableAtomicRmwCmpxchg(i) => {
            let v = vec![SymbolKey::Table(index_as_u32(*i))];
            assert(v@ =~= seq![SymbolKey::Table(num(*i))]);
            Some(v)
        },
        RelocInstruction::TableCopy(d, s) => {
            let v = vec![SymbolKey::Table(index_as_u32(*d)), SymbolKey::Table(index_as_u32(*s))];
            assert(v@ =~= seq![SymbolKey::Table(num(*d)), SymbolKey::Table(num(*s))]);
            Some(v)
        },
        RelocInstruction::Other => None,
    }
}

} // verus!
