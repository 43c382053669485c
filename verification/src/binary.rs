//! Reading the encoded module back with `wasmparser`: where its sections
//! lie, and the bytes and operators of the bodies of its code section.

use vstd::prelude::*;

use wasmparser::{BinaryReader, FunctionBody, Operator, Parser};
use wasmparser::{Catch, SectionLimited};

use crate::code::{
    bodies_patchable, body_patch_list, code_payload, offsets_increase, is_patched_section, law_relocation_types, patch_code_bodies, patched_bodies, patched_for,
    relocations_point_at_targets, relocations_typed, section_patches, BodyOperator, DecodedBody,
};
use crate::error::{Error, ErrorKind};
use crate::reloc::{OperatorCatch, RelocOperator};
use crate::types::{DefinedFunc, PatchedCodeSection, RawSection, CODE_SECTION_ID};

verus! {

#[verifier::external_type_specification]
#[verifier::external_body]
pub struct ExOperator<'a>(Operator<'a>);

/// What `Parser::parse_all` of `wasmparser` yields on the whole of `wasm`,
/// each payload taken by `Payload::as_section` (its section id and the range
/// of its contents, or `None` for a payload that is no section), up to the
/// first error, which ends it.
pub uninterp spec fn module_payloads(wasm: Seq<u8>) -> Result<Seq<Option<(u8, u64, u64)>>, Error>;

/// `Parser::new(0).parse_all(wasm)` of `wasmparser`, each payload mapped by
/// `Payload::as_section`; the parser's first error, if there is one. The
/// result is a function of the bytes alone and is named, not stated.
#[verifier::external_body]
fn parse_all_payloads(wasm: &[u8]) -> (res: Result<Vec<Option<(u8, u64, u64)>>, Error>)
    ensures
        match module_payloads(wasm@) {
            Ok(ps) => res matches Ok(v) && v@ == ps,
            Err(e) => res == Err::<Vec<Option<(u8, u64, u64)>>, Error>(e),
        },
{
    Parser::new(0).parse_all(wasm).map(|p| match p {
        Ok(p) => Ok(p.as_section().map(|(id, range)| (id, range.start, range.end))),
        Err(e) => Err(Error { offset: e.offset() as usize, kind: ErrorKind::Text(e.message().to_owned()) }),
    }).collect()
}

/// Where the bodies of the code section whose contents are
/// `wasm[start..end]` lie in the module, in order, as `wasmparser` reads
/// them (`FunctionBody::range` of each body the section yields); or the
/// reader's first error.
pub uninterp spec fn code_body_ranges_of(wasm: Seq<u8>, start: usize, end: usize) -> Result<
    Seq<(u64, u64)>,
    Error,
>;

/// `CodeSectionReader::new` of `wasmparser` on `wasm[start..end]` (offsets
/// taken from `start`), iterated to its end, with `FunctionBody::range` of
/// each body. The result is a function of the arguments alone and is named,
/// not stated.
#[verifier::external_body]
fn code_body_ranges(wasm: &[u8], start: usize, end: usize) -> (res: Result<Vec<(u64, u64)>, Error>)
    requires
        start <= end <= wasm.len(),
    ensures
        match code_body_ranges_of(wasm@, start, end) {
            Ok(rs) => res matches Ok(v) && v@ == rs,
            Err(e) => res == Err::<Vec<(u64, u64)>, Error>(e),
        },
{
    let conv = |e: wasmparser::BinaryReaderError| Error { offset: e.offset() as usize, kind: ErrorKind::Text(e.message().to_owned()) };
    let reader = SectionLimited::<FunctionBody>::new(BinaryReader::new(&wasm[start..end], start as u64)).map_err(conv)?;
    reader.into_iter().map(|b| b.map(|b| (b.range().start, b.range().end)).map_err(conv)).collect()
}

/// What is read of one operator: its offset in the module, its call and
/// table-initialising variant (`Other` for any other operator), its
/// table-access variant (likewise), and for a `try_table` its catch clauses.
pub type OperatorParts = (u64, RelocOperator, RelocOperator, Option<Vec<OperatorCatch>>);

/// The operators `wasmparser` reads from the function body at
/// `wasm[start..end]` (`OperatorsReader::into_iter_with_offsets` of its
/// `FunctionBody`), each taken apart as `OperatorParts`; or the reader's
/// first error.
pub uninterp spec fn body_operators_of(wasm: Seq<u8>, start: usize, end: usize) -> Result<Seq<OperatorParts>, Error>;

/// `FunctionBody::new` of `wasmparser` on `wasm[start..end]` (offsets taken
/// from `start`), `get_operators_reader`, and every operator with its offset,
/// converted by `call_operator`, `table_operator` and `try_table_catches`.
/// The result is a function of the arguments alone and is named, not stated.
#[verifier::external_body]
fn body_operators(wasm: &[u8], start: usize, end: usize) -> (res: Result<Vec<OperatorParts>, Error>)
    requires
        start <= end <= wasm.len(),
    ensures
        match body_operators_of(wasm@, start, end) {
            Ok(ops) => res matches Ok(v) && v@ == ops,
            Err(e) => res == Err::<Vec<OperatorParts>, Error>(e),
        },
{
    let conv = |e: wasmparser::BinaryReaderError| Error { offset: e.offset() as usize, kind: ErrorKind::Text(e.message().to_owned()) };
    let body = FunctionBody::new(BinaryReader::new(&wasm[start..end], start as u64));
    let reader = body.get_operators_reader().map_err(conv)?;
    reader.into_iter_with_offsets().map(|r| r.map(|(op, offset)| (offset, call_operator(&op), table_operator(&op), try_table_catches(&op))).map_err(conv)).collect()
}

/// The call and table-initialising variants of `Operator`, with their index
/// immediates; `Other` for all other variants. A conversion, applied inside
/// `body_operators`.
#[verifier::external_body]
fn call_operator(op: &Operator<'_>) -> (r: RelocOperator) {
    match *op {
        Operator::Call { function_index } => RelocOperator::Call { function_index },
        Operator::ReturnCall { function_index } => RelocOperator::ReturnCall { function_index },
        Operator::Throw { tag_index } => RelocOperator::Throw { tag_index },
        Operator::CallIndirect { table_index, .. } => RelocOperator::CallIndirect { table_index },
        Operator::ReturnCallIndirect { table_index, .. } => RelocOperator::ReturnCallIndirect { table_index },
        Operator::TableInit { table, .. } => RelocOperator::TableInit { table },
        Operator::TableCopy { dst_table, src_table } => RelocOperator::TableCopy { dst_table, src_table },
        _ => RelocOperator::Other,
    }
}

/// The table-access variants of `Operator`, with their table index; `Other`
/// for all other variants. A conversion, applied inside `body_operators`.
#[verifier::external_body]
fn table_operator(op: &Operator<'_>) -> (r: RelocOperator) {
    match *op {
        Operator::TableGet { table } => RelocOperator::TableGet { table },
        Operator::TableSet { table } => RelocOperator::TableSet { table },
        Operator::TableFill { table } => RelocOperator::TableFill { table },
        Operator::TableSize { table } => RelocOperator::TableSize { table },
        Operator::TableGrow { table } => RelocOperator::TableGrow { table },
        Operator::TableAtomicGet { table_index, .. } => RelocOperator::TableAtomicGet { table_index },
        Operator::TableAtomicSet { table_index, .. } => RelocOperator::TableAtomicSet { table_index },
        Operator::TableAtomicRmwXchg { table_index, .. } => RelocOperator::TableAtomicRmwXchg { table_index },
        Operator::TableAtomicRmwCmpxchg { table_index, .. } => RelocOperator::TableAtomicRmwCmpxchg { table_index },
        _ => RelocOperator::Other,
    }
}

/// For a `try_table` operator, its catch clauses (`Catch`) with their tags;
/// `None` for all other operators. A conversion, applied inside
/// `body_operators`.
#[verifier::external_body]
fn try_table_catches(op: &Operator<'_>) -> (c: Option<Vec<OperatorCatch>>) {
    match op {
        Operator::TryTable { try_table } => Some(try_table.catches.iter().map(|c| match *c {
            Catch::One { tag, .. } => OperatorCatch::One { tag },
            Catch::OneRef { tag, .. } => OperatorCatch::OneRef { tag },
            Catch::All { .. } => OperatorCatch::All,
            Catch::AllRef { .. } => OperatorCatch::AllRef,
        }).collect()),
        _ => None,
    }
}

/// The sections of a module of `len` bytes, as listed: numbered in order,
/// each range within the module.
pub open spec fn sections_within(sections: Seq<RawSection>, len: int) -> bool {
    forall|i: int|
        #![trigger sections[i]]
        0 <= i < sections.len() ==> sections[i].index == i && sections[i].start <= sections[i].end <= len
}

/// The sections among the payloads `ps` of a module of `len` bytes, in
/// order and numbered from 0; an internal error where a range does not lie
/// within the module or the sections are too many to number.
pub open spec fn sections_of(ps: Seq<Option<(u8, u64, u64)>>, len: int) -> Result<Seq<RawSection>, Error>
    decreases ps.len(),
{
    if ps.len() == 0 {
        Ok(seq![])
    } else {
        match sections_of(ps.drop_last(), len) {
            Err(e) => Err(e),
            Ok(v) => match ps.last() {
                None => Ok(v),
                Some((id, start, stop)) => if start <= stop && stop <= len && v.len() < u32::MAX {
                    Ok(v.push(RawSection { id, index: v.len() as u32, start: start as usize, end: stop as usize }))
                } else {
                    Err(Error { offset: 0, kind: ErrorKind::Inconsistent })
                },
            },
        }
    }
}

proof fn lemma_sections_of_err(ps: Seq<Option<(u8, u64, u64)>>, len: int, i: int)
    requires
        0 <= i <= ps.len(),
        sections_of(ps.take(i), len) is Err,
    ensures
        sections_of(ps, len) == sections_of(ps.take(i), len),
    decreases ps.len() - i,
{
    if i < ps.len() {
        assert(ps.take(i + 1).drop_last() =~= ps.take(i));
        lemma_sections_of_err(ps, len, i + 1);
    } else {
        assert(ps.take(i) =~= ps);
    }
}

proof fn lemma_sections_of_within(ps: Seq<Option<(u8, u64, u64)>>, len: int)
    requires
        0 <= len <= usize::MAX,
    ensures
        sections_of(ps, len) matches Ok(v) ==> sections_within(v, len),
    decreases ps.len(),
{
    if ps.len() > 0 {
        lemma_sections_of_within(ps.drop_last(), len);
        if let Ok(v) = sections_of(ps, len) {
            let v0 = sections_of(ps.drop_last(), len)->Ok_0;
            assert forall|i: int| 0 <= i < v.len() implies #[trigger] v[i].index == i && v[i].start <= v[i].end
                <= len by {
                if i < v0.len() {
                    assert(v[i] == v0[i]);
                } else {
                    let (id, start, stop) = ps.last()->Some_0;
                    assert(start <= stop <= len);
                    assert(v[i] == RawSection { id, index: v0.len() as u32, start: start as usize, end: stop as usize });
                }
            }
        }
    }
}

/// The sections of an encoded module, in order, as `wasmparser` finds them:
/// those among the payloads of `Parser::parse_all`, numbered in order.
pub fn raw_sections(wasm: &[u8]) -> (res: Result<Vec<RawSection>, Error>)
    ensures
        res matches Ok(v) ==> sections_within(v@, wasm.len() as int),
        match module_payloads(wasm@) {
            Err(e) => res == Err::<Vec<RawSection>, Error>(e),
            Ok(ps) => match sections_of(ps, wasm.len() as int) {
                Ok(v) => res matches Ok(r) && r@ == v,
                Err(e) => res == Err::<Vec<RawSection>, Error>(e),
            },
        },
{
    let payloads = match parse_all_payloads(wasm) {
        Err(e) => return Err(e),
        Ok(p) => p,
    };
    let ghost len = wasm.len() as int;
    let mut sections: Vec<RawSection> = Vec::new();
    let mut i: usize = 0;
    proof {
        assert(payloads@.take(0) =~= Seq::<Option<(u8, u64, u64)>>::empty());
    }
    while i < payloads.len()
        invariant
            i <= payloads.len(),
            len == wasm.len(),
            module_payloads(wasm@) == Ok::<Seq<Option<(u8, u64, u64)>>, Error>(payloads@),
            sections_of(payloads@.take(i as int), len) == Ok::<Seq<RawSection>, Error>(sections@),
        decreases payloads.len() - i,
    {
        proof {
            assert(payloads@.take(i + 1).drop_last() =~= payloads@.take(i as int));
            assert(payloads@.take(i + 1).last() == payloads@[i as int]);
        }
        match payloads[i] {
            Some((id, start, stop)) => {
                if start > stop || stop > wasm.len() as u64 || sections.len() >= 0xffff_ffff {
                    proof {
                        assert(sections_of(payloads@.take(i + 1), len) == Err::<Seq<RawSection>, Error>(
                            Error { offset: 0, kind: ErrorKind::Inconsistent },
                        ));
                        lemma_sections_of_err(payloads@, len, i + 1);
                    }
                    let e = Error::new(0, ErrorKind::Inconsistent);
                    assert(e == Error { offset: 0, kind: ErrorKind::Inconsistent });
                    return Err(e);
                }
                let index = sections.len() as u32;
                sections.push(RawSection { id, index, start: start as usize, end: stop as usize });
            },
            None => {},
        }
        i += 1;
    }
    proof {
        assert(payloads@.take(i as int) =~= payloads@);
        lemma_sections_of_within(payloads@, len);
    }
    Ok(sections)
}

/// The operators of a decoded body start within its bytes, in increasing
/// order.
pub open spec fn operators_in_order(d: DecodedBody) -> bool {
    &&& forall|i: int| 0 <= i < d.operators.len() ==> (#[trigger] d.operators@[i]).offset < d.bytes.len()
    &&& forall|i: int, j: int|
        0 <= i < j < d.operators.len() ==> (#[trigger] d.operators@[i]).offset < (#[trigger] d.operators@[j]).offset
}

/// The relocatable view of one operator from its parts: its call variant,
/// else its table variant, else its `try_table` catches, else `Other`.
pub open spec fn spec_operator_of(call: RelocOperator, table: RelocOperator, catches: Option<Vec<OperatorCatch>>) -> RelocOperator {
    if !(call is Other) {
        call
    } else if !(table is Other) {
        table
    } else {
        match catches {
            Some(cs) => RelocOperator::TryTable { catches: cs },
            None => RelocOperator::Other,
        }
    }
}

/// The offsets of the operators lie within the body at `start..end`, in
/// increasing order.
pub open spec fn positions_ok(ops: Seq<OperatorParts>, start: usize, end: usize) -> bool {
    &&& forall|k: int| 0 <= k < ops.len() ==> start <= (#[trigger] ops[k]).0 < end
    &&& forall|i: int, j: int| 0 <= i < j < ops.len() ==> (#[trigger] ops[i]).0 < (#[trigger] ops[j]).0
}

/// The operators of a body at `start..end`, each with its offset within the
/// body, from what `wasmparser` reads.
pub open spec fn body_operator_list(ops: Seq<OperatorParts>, start: usize) -> Seq<BodyOperator> {
    Seq::new(
        ops.len(),
        |k: int| BodyOperator { offset: (ops[k].0 - start) as usize, operator: spec_operator_of(ops[k].1, ops[k].2, ops[k].3) },
    )
}

/// The function body at `wasm[start..end]` as it is decoded: its bytes and
/// its operators; an internal error where the operators are not in order
/// within the body.
pub open spec fn decoded_body(wasm: Seq<u8>, start: usize, end: usize) -> Result<(Seq<u8>, Seq<BodyOperator>), Error> {
    match body_operators_of(wasm, start, end) {
        Err(e) => Err(e),
        Ok(ops) => if positions_ok(ops, start, end) {
            Ok((wasm.subrange(start as int, end as int), body_operator_list(ops, start)))
        } else {
            Err(Error { offset: 0, kind: ErrorKind::Inconsistent })
        },
    }
}

/// The bytes and operators of decoded bodies.
pub open spec fn bodies_view(v: Seq<DecodedBody>) -> Seq<(Seq<u8>, Seq<BodyOperator>)> {
    v.map_values(|d: DecodedBody| (d.bytes@, d.operators@))
}

/// The bytes of the function body at `wasm[start..end]` and its operators,
/// each with its offset within those bytes.
fn decode_body(wasm: &[u8], start: usize, end: usize) -> (res: Result<DecodedBody, Error>)
    requires
        start <= end <= wasm.len(),
    ensures
        res matches Ok(d) ==> operators_in_order(d),
        match decoded_body(wasm@, start, end) {
            Ok(b) => res matches Ok(d) && (d.bytes@, d.operators@) == b,
            Err(e) => res == Err::<DecodedBody, Error>(e),
        },
{
    let mut bytes: Vec<u8> = Vec::new();
    let mut k: usize = start;
    while k < end
        invariant
            start <= k <= end <= wasm.len(),
            bytes@ == wasm@.subrange(start as int, k as int),
        decreases end - k,
    {
        bytes.push(wasm[k]);
        k += 1;
        proof {
            assert(bytes@ =~= wasm@.subrange(start as int, k as int));
        }
    }
    let parts = match body_operators(wasm, start, end) {
        Err(e) => return Err(e),
        Ok(p) => p,
    };
    let ghost ops = parts@;
    assert(ops.len() == parts.len());
    let mut operators: Vec<BodyOperator> = Vec::new();
    let mut parts = parts;
    let mut rest: Vec<OperatorParts> = Vec::new();
    // Take the parts in order: reverse them once, then pop from the back.
    while parts.len() > 0
        invariant
            rest.len() + parts.len() == ops.len(),
            ops.len() <= usize::MAX,
            forall|j: int| 0 <= j < rest.len() ==> rest@[j] == ops[ops.len() - 1 - j],
            forall|j: int| 0 <= j < parts.len() ==> parts@[j] == ops[j],
        decreases parts.len(),
    {
        let p = parts.pop().unwrap();
        rest.push(p);
    }
    let mut last: u64 = 0;
    let mut n: usize = 0;
    while rest.len() > 0
        invariant
            n + rest.len() == ops.len(),
            ops.len() <= usize::MAX,
            body_operators_of(wasm@, start, end) == Ok::<Seq<OperatorParts>, Error>(ops),
            forall|j: int| 0 <= j < rest.len() ==> rest@[j] == ops[ops.len() - 1 - j],
            operators@ == body_operator_list(ops.take(n as int), start),
            forall|i: int| 0 <= i < n ==> start <= (#[trigger] ops[i]).0 < end,
            forall|i: int, j: int| 0 <= i < j < n ==> (#[trigger] ops[i]).0 < (#[trigger] ops[j]).0,
            n > 0 ==> last == ops[n - 1].0,
            forall|i: int| 0 <= i < n ==> (#[trigger] ops[i]).0 <= last,
            bytes@ == wasm@.subrange(start as int, end as int),
        decreases rest.len(),
    {
        let (position, call, table, catches) = rest.pop().unwrap();
        assert((position, call, table, catches) == ops[n as int]);
        if position < start as u64 || position >= end as u64 || (n > 0 && position <= last) {
            proof {
                assert(!positions_ok(ops, start, end)) by {
                    if position < start as u64 || position >= end as u64 {
                        assert(!(start <= ops[n as int].0 < end));
                    } else {
                        assert(ops[n - 1].0 >= ops[n as int].0);
                    }
                }
            }
            return Err(Error::new(0, ErrorKind::Inconsistent));
        }
        let offset = (position - start as u64) as usize;
        let operator = operator_of(call, table, catches);
        operators.push(BodyOperator { offset, operator });
        proof {
            assert(body_operator_list(ops.take(n + 1), start) =~= body_operator_list(ops.take(n as int), start).push(
                BodyOperator { offset, operator },
            ));
        }
        last = position;
        n += 1;
    }
    proof {
        assert(ops.take(n as int) =~= ops);
        assert(positions_ok(ops, start, end));
    }
    let d = DecodedBody { bytes, operators };
    assert(operators_in_order(d)) by {
        assert forall|i: int| 0 <= i < d.operators.len() implies (#[trigger] d.operators@[i]).offset < d.bytes.len() by {
            assert(d.operators@[i] == body_operator_list(ops, start)[i]);
        }
        assert forall|i: int, j: int| 0 <= i < j < d.operators.len() implies (#[trigger] d.operators@[i]).offset
            < (#[trigger] d.operators@[j]).offset by {
            assert(d.operators@[i] == body_operator_list(ops, start)[i]);
            assert(d.operators@[j] == body_operator_list(ops, start)[j]);
        }
    }
    Ok(d)
}

/// The relocatable view of one operator, from its parts.
fn operator_of(call: RelocOperator, table: RelocOperator, catches: Option<Vec<OperatorCatch>>) -> (r: RelocOperator)
    ensures
        r == spec_operator_of(call, table, catches),
{
    if !matches!(call, RelocOperator::Other) {
        return call;
    }
    if !matches!(table, RelocOperator::Other) {
        return table;
    }
    match catches {
        Some(cs) => RelocOperator::TryTable { catches: cs },
        None => RelocOperator::Other,
    }
}

/// The bodies of a code section at `start..end` whose ranges are `ranges`,
/// decoded in order; an internal error (at `start`) for a range outside
/// the module.
pub open spec fn bodies_from(wasm: Seq<u8>, ranges: Seq<(u64, u64)>, start: usize) -> Result<
    Seq<(Seq<u8>, Seq<BodyOperator>)>,
    Error,
>
    decreases ranges.len(),
{
    if ranges.len() == 0 {
        Ok(seq![])
    } else {
        match bodies_from(wasm, ranges.drop_last(), start) {
            Err(e) => Err(e),
            Ok(v) => {
                let (rs, re) = ranges.last();
                if rs <= re && re <= wasm.len() {
                    match decoded_body(wasm, rs as usize, re as usize) {
                        Err(e) => Err(e),
                        Ok(b) => Ok(v.push(b)),
                    }
                } else {
                    Err(Error { offset: start, kind: ErrorKind::Inconsistent })
                }
            },
        }
    }
}

/// The code section whose contents are `wasm[start..end]`, decoded: its
/// bodies where `wasmparser` finds them, each with its bytes and operators.
pub open spec fn decoded_section(wasm: Seq<u8>, start: usize, end: usize) -> Result<
    Seq<(Seq<u8>, Seq<BodyOperator>)>,
    Error,
> {
    match code_body_ranges_of(wasm, start, end) {
        Err(e) => Err(e),
        Ok(rs) => bodies_from(wasm, rs, start),
    }
}

proof fn lemma_bodies_from_err(wasm: Seq<u8>, rs: Seq<(u64, u64)>, start: usize, i: int)
    requires
        0 <= i <= rs.len(),
        bodies_from(wasm, rs.take(i), start) is Err,
    ensures
        bodies_from(wasm, rs, start) == bodies_from(wasm, rs.take(i), start),
    decreases rs.len() - i,
{
    if i < rs.len() {
        assert(rs.take(i + 1).drop_last() =~= rs.take(i));
        lemma_bodies_from_err(wasm, rs, start, i + 1);
    } else {
        assert(rs.take(i) =~= rs);
    }
}

/// The bodies of the code section whose contents are `wasm[start..end]`.
fn decode_code_section(wasm: &[u8], start: usize, end: usize) -> (res: Result<Vec<DecodedBody>, Error>)
    requires
        start <= end <= wasm.len(),
    ensures
        res matches Ok(v) ==> forall|k: int| 0 <= k < v.len() ==> operators_in_order(#[trigger] v@[k]),
        match decoded_section(wasm@, start, end) {
            Ok(bs) => res matches Ok(v) && bodies_view(v@) == bs,
            Err(e) => res == Err::<Vec<DecodedBody>, Error>(e),
        },
{
    let ranges = match code_body_ranges(wasm, start, end) {
        Err(e) => return Err(e),
        Ok(r) => r,
    };
    let mut bodies: Vec<DecodedBody> = Vec::new();
    let mut k: usize = 0;
    proof {
        assert(ranges@.take(0) =~= Seq::<(u64, u64)>::empty());
        assert(bodies_view(bodies@) =~= Seq::<(Seq<u8>, Seq<BodyOperator>)>::empty());
    }
    while k < ranges.len()
        invariant
            k <= ranges.len(),
            start <= end <= wasm.len(),
            code_body_ranges_of(wasm@, start, end) == Ok::<Seq<(u64, u64)>, Error>(ranges@),
            bodies_from(wasm@, ranges@.take(k as int), start) == Ok::<Seq<(Seq<u8>, Seq<BodyOperator>)>, Error>(
                bodies_view(bodies@),
            ),
            forall|j: int| 0 <= j < bodies.len() ==> operators_in_order(#[trigger] bodies@[j]),
        decreases ranges.len() - k,
    {
        proof {
            assert(ranges@.take(k + 1).drop_last() =~= ranges@.take(k as int));
            assert(ranges@.take(k + 1).last() == ranges@[k as int]);
        }
        let (rs, re) = ranges[k];
        if rs > re || re > wasm.len() as u64 {
            proof {
                lemma_bodies_from_err(wasm@, ranges@, start, k + 1);
            }
            let e = Error::new(start, ErrorKind::Inconsistent);
            assert(e == Error { offset: start, kind: ErrorKind::Inconsistent });
            return Err(e);
        }
        match decode_body(wasm, rs as usize, re as usize) {
            Err(e) => {
                proof {
                    lemma_bodies_from_err(wasm@, ranges@, start, k + 1);
                }
                return Err(e);
            },
            Ok(d) => {
                let ghost before = bodies@;
                bodies.push(d);
                proof {
                    assert(bodies_view(bodies@) =~= bodies_view(before).push((d.bytes@, d.operators@)));
                }
            },
        }
        k += 1;
    }
    proof {
        assert(ranges@.take(k as int) =~= ranges@);
    }
    Ok(bodies)
}

/// `code` is the code section of the module `wasm`, whose sections are
/// `sections`, patched for the defined functions `funcs`: `None` where the
/// module has none; otherwise its first code section, whose bodies are read
/// from where `wasmparser` finds them and patched.
pub open spec fn code_of_module(
    code: Option<PatchedCodeSection>,
    wasm: Seq<u8>,
    sections: Seq<RawSection>,
    funcs: Seq<DefinedFunc>,
) -> bool {
    match code {
        None => forall|i: int| 0 <= i < sections.len() ==> (#[trigger] sections[i]).id != CODE_SECTION_ID,
        Some(c) => patched_code_of_module(c, wasm, sections, funcs),
    }
}

/// `c` is the module's first code section, decoded from the module's bytes
/// and patched for `funcs`.
pub open spec fn patched_code_of_module(
    c: PatchedCodeSection,
    wasm: Seq<u8>,
    sections: Seq<RawSection>,
    funcs: Seq<DefinedFunc>,
) -> bool {
    exists|i: int, bodies: Seq<DecodedBody>|
        #![trigger is_patched_section(c, bodies, funcs), is_first_code_section(sections, i)]
        is_patched_section(c, bodies, funcs) && section_fits(bodies, funcs) && is_first_code_section(sections, i)
            && c.section_index == sections[i].index && decoded_section(wasm, sections[i].start, sections[i].end)
            == Ok::<Seq<(Seq<u8>, Seq<BodyOperator>)>, Error>(bodies_view(bodies))
}

/// The module's code section, if it has one, can be decoded and patched for
/// `funcs`.
pub open spec fn code_patchable(wasm: Seq<u8>, sections: Seq<RawSection>, funcs: Seq<DefinedFunc>) -> bool {
    forall|i: int|
        #[trigger] is_first_code_section(sections, i) ==> (decoded_section(wasm, sections[i].start, sections[i].end) matches Ok(
            bs,
        ) && exists|v: Seq<DecodedBody>| #[trigger] bodies_view(v) == bs && section_fits(v, funcs))
}

/// The bodies `v` can be patched for `funcs`, and the patched section can be
/// numbered with `u32` offsets.
pub open spec fn section_fits(v: Seq<DecodedBody>, funcs: Seq<DefinedFunc>) -> bool {
    &&& bodies_patchable(v, funcs)
    &&& v.len() <= u32::MAX
    &&& code_payload(patched_bodies(v, section_patches(v, funcs))).len() <= u32::MAX
}

/// Whether bodies can be patched, and how, depends only on their bytes and
/// operators.
proof fn lemma_patching_by_view(v1: Seq<DecodedBody>, v2: Seq<DecodedBody>, funcs: Seq<DefinedFunc>)
    requires
        bodies_view(v1) == bodies_view(v2),
    ensures
        bodies_patchable(v1, funcs) == bodies_patchable(v2, funcs),
        patched_bodies(v1, section_patches(v1, funcs)) == patched_bodies(v2, section_patches(v2, funcs)),
        section_fits(v1, funcs) == section_fits(v2, funcs),
{
    assert(v1.len() == bodies_view(v1).len());
    assert forall|k: int| 0 <= k < v1.len() implies #[trigger] v1[k].bytes@ == v2[k].bytes@ && v1[k].operators@
        == v2[k].operators@ by {
        assert(bodies_view(v1)[k] == bodies_view(v2)[k]);
    }
    assert forall|k: int| 0 <= k < v1.len() implies #[trigger] body_patch_list(v1[k], funcs[k]) == body_patch_list(
        v2[k],
        funcs[k],
    ) by {
        assert(v1[k].bytes@ == v2[k].bytes@ && v1[k].operators@ == v2[k].operators@);
    }
    if bodies_patchable(v1, funcs) {
        assert forall|k: int| 0 <= k < v2.len() implies #[trigger] body_patch_list(v2[k], funcs[k]) is Some by {
            assert(body_patch_list(v1[k], funcs[k]) == body_patch_list(v2[k], funcs[k]));
        }
    }
    if bodies_patchable(v2, funcs) {
        assert forall|k: int| 0 <= k < v1.len() implies #[trigger] body_patch_list(v1[k], funcs[k]) is Some by {
            assert(body_patch_list(v1[k], funcs[k]) == body_patch_list(v2[k], funcs[k]));
        }
    }
    assert(section_patches(v1, funcs) =~= section_patches(v2, funcs));
    assert(patched_bodies(v1, section_patches(v1, funcs)) =~= patched_bodies(v2, section_patches(v2, funcs))) by {
        assert forall|k: int| 0 <= k < v1.len() implies #[trigger] v1[k].bytes@ == v2[k].bytes@ by {}
    }
}

/// The position of the first code section, if any.
pub open spec fn is_first_code_section(sections: Seq<RawSection>, i: int) -> bool {
    &&& 0 <= i < sections.len()
    &&& sections[i].id == CODE_SECTION_ID
    &&& forall|j: int| 0 <= j < i ==> (#[trigger] sections[j]).id != CODE_SECTION_ID
}

/// The code section of the module with its relocatable immediates widened:
/// `None` where the module has no code section. Every relocation of the
/// result points at the 5-byte encoding of its target's index.
pub fn patch_code_section(wasm: &[u8], sections: &Vec<RawSection>, defined_funcs: &Vec<DefinedFunc>) -> (res:
    Result<Option<PatchedCodeSection>, Error>)
    requires
        sections_within(sections@, wasm.len() as int),
    ensures
        res matches Ok(None) ==> forall|i: int| 0 <= i < sections.len() ==> (#[trigger] sections@[i]).id
            != CODE_SECTION_ID,
        (forall|i: int| 0 <= i < sections.len() ==> (#[trigger] sections@[i]).id != CODE_SECTION_ID) ==> res
            == Ok::<Option<PatchedCodeSection>, Error>(None),
        res matches Ok(Some(code)) ==> exists|i: int|
            is_first_code_section(sections@, i) && code.section_index == (#[trigger] sections@[i]).index
                && relocations_point_at_targets(code.payload@, code.relocations@) && relocations_typed(
                code.relocations@,
            ),
        res matches Ok(Some(code)) ==> patched_for(code, defined_funcs@),
        res matches Ok(Some(code)) ==> offsets_increase(code.relocations@),
        res matches Ok(code) ==> code_of_module(code, wasm@, sections@, defined_funcs@),
        code_patchable(wasm@, sections@, defined_funcs@) ==> res is Ok,
        forall|i: int|
            #[trigger] is_first_code_section(sections@, i) ==> match decoded_section(
                wasm@,
                sections@[i].start,
                sections@[i].end,
            ) {
                Err(e) => res == Err::<Option<PatchedCodeSection>, Error>(e),
                Ok(bs) => forall|v: Seq<DecodedBody>|
                    #[trigger] bodies_view(v) == bs ==> (res is Ok <==> section_fits(v, defined_funcs@)),
            },
{
    let mut i: usize = 0;
    while i < sections.len()
        invariant
            i <= sections.len(),
            forall|j: int| 0 <= j < i ==> (#[trigger] sections@[j]).id != CODE_SECTION_ID,
        ensures
            i <= sections.len(),
            forall|j: int| 0 <= j < i ==> (#[trigger] sections@[j]).id != CODE_SECTION_ID,
            i < sections.len() ==> sections@[i as int].id == CODE_SECTION_ID,
        decreases sections.len() - i,
    {
        if sections[i].id == CODE_SECTION_ID {
            break;
        }
        i += 1;
    }
    if i == sections.len() {
        return Ok(None);
    }
    let section = sections[i];
    assert(is_first_code_section(sections@, i as int));
    proof {
        assert forall|j: int| #[trigger] is_first_code_section(sections@, j) implies j == i by {
            if j < i {
                assert(sections@[j].id != CODE_SECTION_ID);
            }
            if i < j {
                assert(sections@[i as int].id != CODE_SECTION_ID);
            }
        }
    }
    let bodies = match decode_code_section(wasm, section.start, section.end) {
        Err(e) => return Err(e),
        Ok(b) => b,
    };
    proof {
        assert forall|v: Seq<DecodedBody>| #[trigger] bodies_view(v) == bodies_view(bodies@) implies section_fits(
            v,
            defined_funcs@,
        ) == section_fits(bodies@, defined_funcs@) by {
            lemma_patching_by_view(v, bodies@, defined_funcs@);
        }
    }
    match patch_code_bodies(section.index, &bodies, defined_funcs) {
        Err(e) => Err(e),
        Ok(code) => {
            proof {
                let pss = section_patches(bodies@, defined_funcs@);
                law_relocation_types(bodies@, defined_funcs@, patched_bodies(bodies@, pss));
                assert(is_patched_section(code, bodies@, defined_funcs@));
                assert(is_first_code_section(sections@, i as int));
                assert(decoded_section(wasm@, section.start, section.end) == Ok::<
                    Seq<(Seq<u8>, Seq<BodyOperator>)>,
                    Error,
                >(bodies_view(bodies@)));
                assert(code.section_index == sections@[i as int].index);
                assert(decoded_section(wasm@, sections@[i as int].start, sections@[i as int].end) == Ok::<
                    Seq<(Seq<u8>, Seq<BodyOperator>)>,
                    Error,
                >(bodies_view(bodies@)));
                assert(section_fits(bodies@, defined_funcs@));
                assert(patched_code_of_module(code, wasm@, sections@, defined_funcs@));
            }
            Ok(Some(code))
        },
    }
}

} // verus!
