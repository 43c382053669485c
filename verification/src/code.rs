//! Rewriting the code section: relocatable immediates are widened to padded
//! 5-byte LEB128 numbers, and the relocation entries that point at them are
//! collected and encoded.

use vstd::prelude::*;

use crate::error::{Error, ErrorKind};
use crate::encoder::encode_u32;
use crate::leb::{
    encode_5_byte_u32_leb, leb_padded, leb_u32, lemma_leb_padded, lemma_leb_u32_len, pow128,
    u32_leb_len,
};
use crate::reloc::{
    lemma_operator_patches_typed, operator_patches, patches_typed, prepend, reloc_type_for,
    spec_operator_patches, RelocOperator, RelocPatch,
};
use crate::link::LinkInfo;
use crate::types::{
    CodeRelocation, DefinedFunc, ParsedRelocInstruction, PatchedCodeSection, SymbolKey,
};

verus! {

/// Appends `src[from..to]` to `dst`.
pub fn extend_bytes(dst: &mut Vec<u8>, src: &[u8], from: usize, to: usize)
    requires
        from <= to <= src.len(),
    ensures
        final(dst)@ == old(dst)@ + src@.subrange(from as int, to as int),
{
    let ghost start = dst@;
    let mut i = from;
    while i < to
        invariant
            from <= i <= to <= src.len(),
            dst@ == start + src@.subrange(from as int, i as int),
        decreases to - i,
    {
        dst.push(src[i]);
        proof {
            assert(src@.subrange(from as int, i + 1) =~= src@.subrange(from as int, i as int).push(
                src@[i as int],
            ));
        }
        i += 1;
    }
}

/// How many bytes the first `k` patches add to the body.
pub open spec fn growth(ps: Seq<RelocPatch>, k: int) -> int
    decreases k,
{
    if k <= 0 {
        0
    } else {
        growth(ps, k - 1) + 5 - ps[k - 1].original_len
    }
}

/// The patches lie inside a body of `len` bytes, each immediate is 1 to 5
/// bytes long, and they come in order without overlapping.
pub open spec fn patches_ordered(ps: Seq<RelocPatch>, len: int) -> bool {
    &&& forall|k: int|
        0 <= k < ps.len() ==> 1 <= #[trigger] ps[k].original_len <= 5 && ps[k].immediate_start
            + ps[k].original_len <= len
    &&& forall|j: int, k: int|
        0 <= j < k < ps.len() ==> #[trigger] ps[j].immediate_start + ps[j].original_len
            <= #[trigger] ps[k].immediate_start
}

/// The body from `cursor` on, with every patched immediate replaced by the
/// padded 5-byte encoding of its target's index.
pub open spec fn patched_from(body: Seq<u8>, ps: Seq<RelocPatch>, cursor: int) -> Seq<u8>
    decreases ps.len(),
{
    if ps.len() == 0 {
        body.subrange(cursor, body.len() as int)
    } else {
        body.subrange(cursor, ps[0].immediate_start as int) + leb_padded(
            ps[0].target.spec_index() as nat,
            5,
        ) + patched_from(body, ps.drop_first(), ps[0].immediate_start + ps[0].original_len)
    }
}

/// Offset of the `k`th patched immediate within the patched body.
pub open spec fn patched_offset(ps: Seq<RelocPatch>, k: int) -> int {
    ps[k].immediate_start + growth(ps, k)
}

proof fn lemma_growth_bounds(ps: Seq<RelocPatch>, k: int, len: int)
    requires
        patches_ordered(ps, len),
        0 <= k <= ps.len(),
    ensures
        0 <= growth(ps, k) <= 4 * k,
    decreases k,
{
    if k > 0 {
        lemma_growth_bounds(ps, k - 1, len);
        assert(1 <= ps[k - 1].original_len <= 5);
    }
}

proof fn lemma_growth_drop_first(ps: Seq<RelocPatch>, k: int)
    requires
        1 <= k <= ps.len(),
    ensures
        growth(ps, k) == 5 - ps[0].original_len + growth(ps.drop_first(), k - 1),
    decreases k,
{
    reveal_with_fuel(growth, 2);
    if k > 1 {
        lemma_growth_drop_first(ps, k - 1);
        assert(ps.drop_first()[k - 2] == ps[k - 1]);
        assert(growth(ps, k) == growth(ps, k - 1) + 5 - ps[k - 1].original_len);
        assert(growth(ps.drop_first(), k - 1) == growth(ps.drop_first(), k - 2) + 5
            - ps.drop_first()[k - 2].original_len);
    }
}

/// The patched body has the original length plus the growth, and each
/// relocation offset points at the padded encoding of its target's index.
#[verifier::spinoff_prover]
#[verifier::rlimit(40)]
pub proof fn lemma_patched_from(body: Seq<u8>, ps: Seq<RelocPatch>, cursor: int)
    requires
        patches_ordered(ps, body.len() as int),
        0 <= cursor <= body.len(),
        ps.len() > 0 ==> cursor <= ps[0].immediate_start,
    ensures
        patched_from(body, ps, cursor).len() == body.len() - cursor + growth(ps, ps.len() as int),
        forall|k: int|
            #![trigger ps[k]]
            0 <= k < ps.len() ==> {
                let o = ps[k].immediate_start - cursor + growth(ps, k);
                &&& 0 <= o
                &&& o + 5 <= patched_from(body, ps, cursor).len()
                &&& patched_from(body, ps, cursor).subrange(o, o + 5) == leb_padded(
                    ps[k].target.spec_index() as nat,
                    5,
                )
            },
    decreases ps.len(),
{
    if ps.len() > 0 {
        let p = ps[0];
        let rest = ps.drop_first();
        let next = p.immediate_start + p.original_len;
        assert(patches_ordered(rest, body.len() as int)) by {
            assert forall|k: int| 0 <= k < rest.len() implies 1 <= #[trigger] rest[k].original_len
                <= 5 && rest[k].immediate_start + rest[k].original_len <= body.len() by {
                assert(rest[k] == ps[k + 1]);
            }
            assert forall|j: int, k: int| 0 <= j < k < rest.len() implies #[trigger] rest[j].immediate_start
                + rest[j].original_len <= #[trigger] rest[k].immediate_start by {
                assert(rest[j] == ps[j + 1]);
                assert(rest[k] == ps[k + 1]);
            }
        }
        if rest.len() > 0 {
            assert(ps[0].immediate_start + ps[0].original_len <= ps[1].immediate_start);
            assert(rest[0] == ps[1]);
        }
        assert(1 <= p.original_len <= 5);
        lemma_patched_from(body, rest, next);
        let a = body.subrange(cursor, p.immediate_start as int);
        let v = p.target.spec_index() as nat;
        assert(v < pow128(5)) by {
            reveal_with_fuel(pow128, 6);
        }
        lemma_leb_padded(v, 5);
        let e = leb_padded(v, 5);
        let r = patched_from(body, rest, next);
        let whole = patched_from(body, ps, cursor);
        assert(whole == a + e + r);
        assert(growth(ps, ps.len() as int) == 5 - p.original_len + growth(rest, rest.len() as int))
            by {
            lemma_growth_drop_first(ps, ps.len() as int);
        }
        assert forall|k: int| #![trigger ps[k]] 0 <= k < ps.len() implies {
            let o = ps[k].immediate_start - cursor + growth(ps, k);
            &&& 0 <= o
            &&& o + 5 <= whole.len()
            &&& whole.subrange(o, o + 5) == leb_padded(
                ps[k].target.spec_index() as nat,
                5,
            )
        } by {
            let o = ps[k].immediate_start - cursor + growth(ps, k);
            if k == 0 {
                assert(whole.subrange(o, o + 5) =~= e);
            } else {
                lemma_growth_drop_first(ps, k);
                assert(rest[k - 1] == ps[k]);
                let o2 = rest[k - 1].immediate_start - next + growth(rest, k - 1);
                assert(r.subrange(o2, o2 + 5) == leb_padded(rest[k - 1].target.spec_index() as nat, 5));
                assert(o == a.len() + 5 + o2);
                assert(whole.subrange(o, o + 5) =~= r.subrange(o2, o2 + 5));
            }
        }
    }
}

proof fn lemma_offset_within_patched(body: Seq<u8>, ps: Seq<RelocPatch>, m: int)
    requires
        patches_ordered(ps, body.len() as int),
        0 <= m < ps.len(),
    ensures
        patched_offset(ps, m) + 5 <= patched_from(body, ps, 0).len(),
{
    lemma_patched_from(body, ps, 0);
    assert(ps[m] == ps[m]);
}

/// The relocation entry of the `k`th patch, relative to the patched body.
pub open spec fn body_relocation(ps: Seq<RelocPatch>, k: int) -> CodeRelocation {
    CodeRelocation {
        offset: patched_offset(ps, k) as u32,
        reloc_type: ps[k].reloc_type,
        target: ps[k].target,
    }
}

/// Replaces each patched immediate of `body` by the padded 5-byte encoding of
/// its target's index, and returns the patched body with one relocation per
/// patch, its offset relative to the patched body. Fails where an offset
/// does not fit in `u32`.
pub fn patch_function_body(body: &[u8], patches: &Vec<RelocPatch>) -> (res: Result<
    (Vec<u8>, Vec<CodeRelocation>),
    Error,
>)
    requires
        patches_ordered(patches@, body.len() as int),
    ensures
        match res {
            Ok((patched, relocations)) => {
                &&& patched@ == patched_from(body@, patches@, 0)
                &&& relocations.len() == patches.len()
                &&& forall|k: int|
                    0 <= k < patches.len() ==> #[trigger] relocations@[k] == body_relocation(
                        patches@,
                        k,
                    )
                &&& forall|k: int| 0 <= k < patches.len() ==> patched_offset(patches@, k) <= u32::MAX
            },
            Err(e) => exists|k: int|
                0 <= k < patches.len() && patched_offset(patches@, k) > u32::MAX,
        },
{
    let ghost ps = patches@;
    let mut patched: Vec<u8> = Vec::new();
    let mut relocations: Vec<CodeRelocation> = Vec::new();
    let mut cursor: usize = 0;
    let mut shift: u64 = 0;
    let mut i: usize = 0;
    proof {
        assert(ps.skip(0) =~= ps);
    }
    while i < patches.len()
        invariant
            patches@ == ps,
            patches_ordered(ps, body.len() as int),
            i <= ps.len(),
            cursor <= body.len(),
            i > 0 ==> cursor == ps[i - 1].immediate_start + ps[i - 1].original_len,
            i == 0 ==> cursor == 0,
            shift == growth(ps, i as int),
            shift <= u32::MAX + 5,
            patched@ + patched_from(body@, ps.skip(i as int), cursor as int) == patched_from(
                body@,
                ps,
                0,
            ),
            relocations.len() == i,
            forall|k: int| 0 <= k < i ==> #[trigger] relocations@[k] == body_relocation(ps, k),
            forall|k: int| 0 <= k < i ==> patched_offset(ps, k) <= u32::MAX,
        decreases ps.len() - i,
    {
        let patch = patches[i];
        proof {
            if i > 0 {
                assert(ps[i - 1].immediate_start + ps[i - 1].original_len <= ps[i as int].immediate_start);
            }
            assert(1 <= ps[i as int].original_len <= 5);
            let rest = ps.skip(i as int);
            assert(rest[0] == patch);
            assert(rest.drop_first() =~= ps.skip(i + 1));
        }
        let start = patch.immediate_start as u64;
        if shift > 0xffff_ffff || start > 0xffff_ffff - shift {
            assert(patched_offset(ps, i as int) > u32::MAX);
            return Err(Error::new(0, ErrorKind::Inconsistent));
        }
        let offset = start + shift;
        let ghost before = patched@;
        extend_bytes(&mut patched, body, cursor, patch.immediate_start);
        encode_5_byte_u32_leb(patch.target.index(), &mut patched);
        proof {
            assert(patched@ == before + body@.subrange(cursor as int, patch.immediate_start as int)
                + leb_padded(patch.target.spec_index() as nat, 5));
        }
        relocations.push(
            CodeRelocation {
                offset: offset as u32,
                reloc_type: patch.reloc_type,
                target: patch.target,
            },
        );
        cursor = patch.immediate_start + patch.original_len;
        shift = shift + 5 - (patch.original_len as u64);
        i += 1;
    }
    let ghost before = patched@;
    extend_bytes(&mut patched, body, cursor, body.len());
    proof {
        assert(ps.skip(i as int) =~= Seq::<RelocPatch>::empty());
    }
    Ok((patched, relocations))
}


/// A decoded operator and where it starts within its function body.
#[derive(Debug, Clone)]
pub struct BodyOperator {
    pub offset: usize,
    pub operator: RelocOperator,
}

/// A function body of the code section: its bytes (locals included) and its
/// decoded operators.
#[derive(Debug, Clone)]
pub struct DecodedBody {
    pub bytes: Vec<u8>,
    pub operators: Vec<BodyOperator>,
}

/// The patches of a function body: the relocatable operators of the body are
/// matched in order with the relocatable instructions of its text, and the
/// immediates of those that carry `@reloc` are patched. `None` where the
/// operators' immediates are not where expected or where the two lists do not
/// line up.
pub open spec fn gather_patches(
    ops: Seq<BodyOperator>,
    body: Seq<u8>,
    instrs: Seq<ParsedRelocInstruction>,
) -> Option<Seq<RelocPatch>>
    decreases ops.len(),
{
    if ops.len() == 0 {
        if instrs.len() == 0 {
            Some(seq![])
        } else {
            None
        }
    } else {
        match spec_operator_patches(ops[0].operator, ops[0].offset as int, body) {
            None => None,
            Some(None) => gather_patches(ops.drop_first(), body, instrs),
            Some(Some(ps)) => if instrs.len() == 0 {
                None
            } else {
                match gather_patches(ops.drop_first(), body, instrs.drop_first()) {
                    Some(rest) => Some(
                        if instrs[0].has_reloc {
                            ps + rest
                        } else {
                            rest
                        },
                    ),
                    None => None,
                }
            },
        }
    }
}

/// Where no relocatable instruction of a function carries `@reloc`, its body
/// gets no patches: nothing in it is widened or relocated.
pub proof fn law_unmarked_body_unpatched(ops: Seq<BodyOperator>, body: Seq<u8>, instrs: Seq<ParsedRelocInstruction>)
    requires
        forall|k: int| 0 <= k < instrs.len() ==> !(#[trigger] instrs[k]).has_reloc,
    ensures
        gather_patches(ops, body, instrs) matches Some(ps) ==> ps.len() == 0,
    decreases ops.len(),
{
    if ops.len() > 0 {
        match spec_operator_patches(ops[0].operator, ops[0].offset as int, body) {
            None => {},
            Some(None) => {
                law_unmarked_body_unpatched(ops.drop_first(), body, instrs);
            },
            Some(Some(_)) => {
                if instrs.len() > 0 {
                    assert(!instrs[0].has_reloc);
                    assert forall|k: int| 0 <= k < instrs.drop_first().len() implies !(
                    #[trigger] instrs.drop_first()[k]).has_reloc by {
                        assert(instrs.drop_first()[k] == instrs[k + 1]);
                    }
                    law_unmarked_body_unpatched(ops.drop_first(), body, instrs.drop_first());
                }
            },
        }
    }
}

proof fn lemma_ordered_prefix(s: Seq<RelocPatch>, n: int, len: int)
    requires
        patches_ordered(s, len),
        0 <= n <= s.len(),
    ensures
        patches_ordered(s.take(n), len),
{
    let t = s.take(n);
    assert forall|k: int| 0 <= k < t.len() implies 1 <= #[trigger] t[k].original_len <= 5
        && t[k].immediate_start + t[k].original_len <= len by {
        assert(t[k] == s[k]);
    }
    assert forall|j: int, k: int| 0 <= j < k < t.len() implies #[trigger] t[j].immediate_start
        + t[j].original_len <= #[trigger] t[k].immediate_start by {
        assert(t[j] == s[j]);
        assert(t[k] == s[k]);
    }
}

/// The patches of the function body `body`, whose decoded operators are
/// `operators`, for the text function `func`. Fails where the operators'
/// immediates are not where expected, where the relocatable operators do not
/// line up with the function's relocatable instructions, or where the patches
/// would overlap.
#[verifier::spinoff_prover]
#[verifier::rlimit(30)]
pub fn reloc_patches(operators: &Vec<BodyOperator>, body: &[u8], func: &DefinedFunc) -> (res:
    Result<Vec<RelocPatch>, Error>)
    ensures
        match res {
            Ok(v) => gather_patches(operators@, body@, func.reloc_instrs@) == Some(v@)
                && patches_ordered(v@, body.len() as int),
            Err(_) => match gather_patches(operators@, body@, func.reloc_instrs@) {
                Some(ps) => !patches_ordered(ps, body.len() as int),
                None => true,
            },
        },
{
    let ghost ops = operators@;
    let ghost instrs = func.reloc_instrs@;
    let ghost len = body.len() as int;
    let mut patches: Vec<RelocPatch> = Vec::new();
    let mut last_end: usize = 0;
    let mut i: usize = 0;
    let mut j: usize = 0;
    proof {
        assert(ops.skip(0) =~= ops);
        assert(instrs.skip(0) =~= instrs);
        if let Some(r) = gather_patches(ops, body@, instrs) {
            assert(patches@ + r =~= r);
        }
    }
    while i < operators.len()
        invariant
            ops == operators@,
            instrs == func.reloc_instrs@,
            len == body.len(),
            i <= ops.len(),
            j <= instrs.len(),
            last_end <= body.len(),
            patches_ordered(patches@, len),
            patches@.len() > 0 ==> last_end == patches@.last().immediate_start
                + patches@.last().original_len,
            patches@.len() == 0 ==> last_end == 0,
            gather_patches(ops, body@, instrs) == prepend(
                patches@,
                gather_patches(ops.skip(i as int), body@, instrs.skip(j as int)),
            ),
        decreases ops.len() - i,
    {
        let ghost suffix = ops.skip(i as int);
        proof {
            assert(suffix[0] == ops[i as int]);
            assert(suffix.drop_first() =~= ops.skip(i + 1));
        }
        let op = &operators[i];
        let found = operator_patches(&op.operator, op.offset, body);
        let instr_patches = match found {
            Err(e) => return Err(e),
            Ok(None) => {
                i += 1;
                continue;
            },
            Ok(Some(ps)) => ps,
        };
        if j >= func.reloc_instrs.len() {
            return Err(Error::new(0, ErrorKind::Inconsistent));
        }
        let ghost isuffix = instrs.skip(j as int);
        proof {
            assert(isuffix[0] == instrs[j as int]);
            assert(isuffix.drop_first() =~= instrs.skip(j + 1));
        }
        proof {
            assert(gather_patches(ops.skip(i as int), body@, instrs.skip(j as int)) == match gather_patches(
                ops.skip(i + 1),
                body@,
                instrs.skip(j + 1),
            ) {
                Some(rest) => Some(
                    if instrs[j as int].has_reloc {
                        instr_patches@ + rest
                    } else {
                        rest
                    },
                ),
                None => None,
            });
        }
        if func.reloc_instrs[j].has_reloc {
            let ghost before = patches@;
            let mut m: usize = 0;
            while m < instr_patches.len()
                invariant
                    len == body.len(),
                    m <= instr_patches.len(),
                    patches@ == before + instr_patches@.take(m as int),
                    patches_ordered(patches@, len),
                    last_end <= body.len(),
                    patches@.len() > 0 ==> last_end == patches@.last().immediate_start
                        + patches@.last().original_len,
                    patches@.len() == 0 ==> last_end == 0,
                    patches_ordered(before, len),
                    ops == operators@,
                    instrs == func.reloc_instrs@,
                    i < ops.len(),
                    j < instrs.len(),
                    instrs[j as int].has_reloc,
                    gather_patches(ops, body@, instrs) == prepend(
                        before,
                        gather_patches(ops.skip(i as int), body@, instrs.skip(j as int)),
                    ),
                    gather_patches(ops.skip(i as int), body@, instrs.skip(j as int)) == match gather_patches(
                        ops.skip(i + 1),
                        body@,
                        instrs.skip(j + 1),
                    ) {
                        Some(rest) => Some(instr_patches@ + rest),
                        None => None,
                    },
                decreases instr_patches.len() - m,
            {
                let q = instr_patches[m];
                let ghost grown = before + instr_patches@.take(m + 1);
                proof {
                    assert(grown =~= patches@.push(q));
                }
                if q.original_len < 1 || q.original_len > 5 || q.immediate_start < last_end
                    || q.immediate_start > body.len() || q.original_len > body.len()
                    - q.immediate_start {
                    proof {
                        let n = patches@.len() as int;
                        assert(grown[n] == q);
                        if patches@.len() > 0 {
                            assert(grown[n - 1] == patches@.last());
                        }
                        assert(!patches_ordered(grown, len)) by {
                            if 1 <= q.original_len <= 5 && q.immediate_start + q.original_len <= len {
                                assert(n > 0);
                                assert(grown[n - 1].immediate_start + grown[n - 1].original_len
                                    > grown[n].immediate_start);
                            }
                        }
                        if let Some(rest) = gather_patches(ops.skip(i + 1), body@, instrs.skip(j + 1)) {
                            let whole = before + (instr_patches@ + rest);
                            assert(whole.take(n + 1) =~= grown);
                            if patches_ordered(whole, len) {
                                lemma_ordered_prefix(whole, n + 1, len);
                            }
                        }
                    }
                    return Err(Error::new(0, ErrorKind::Inconsistent));
                }
                proof {
                    let n = patches@.len() as int;
                    assert forall|a: int, b: int| 0 <= a < b < grown.len() implies #[trigger] grown[a].immediate_start
                        + grown[a].original_len <= #[trigger] grown[b].immediate_start by {
                        if b == n {
                            assert(grown[a] == patches@[a]);
                            if a < n - 1 {
                                assert(patches@[a].immediate_start + patches@[a].original_len
                                    <= patches@[n - 1].immediate_start);
                            }
                        } else {
                            assert(grown[a] == patches@[a]);
                            assert(grown[b] == patches@[b]);
                        }
                    }
                    assert forall|k: int| 0 <= k < grown.len() implies 1 <= #[trigger] grown[k].original_len
                        <= 5 && grown[k].immediate_start + grown[k].original_len <= len by {
                        if k < n {
                            assert(grown[k] == patches@[k]);
                        }
                    }
                }
                patches.push(q);
                last_end = q.immediate_start + q.original_len;
                m += 1;
            }
            proof {
                assert(instr_patches@.take(instr_patches@.len() as int) =~= instr_patches@);
                if let Some(rest) = gather_patches(ops.skip(i + 1), body@, instrs.skip(j + 1)) {
                    assert(before + (instr_patches@ + rest) =~= patches@ + rest);
                }
            }
        }
        i += 1;
        j += 1;
    }
    if j < func.reloc_instrs.len() {
        proof {
            assert(ops.skip(i as int) =~= Seq::<BodyOperator>::empty());
        }
        return Err(Error::new(0, ErrorKind::Inconsistent));
    }
    proof {
        assert(ops.skip(i as int) =~= Seq::<BodyOperator>::empty());
        assert(instrs.skip(j as int) =~= Seq::<ParsedRelocInstruction>::empty());
        assert(patches@ + seq![] =~= patches@);
    }
    Ok(patches)
}


/// The patches of a body, where its operators line up with the function's
/// text and the patches are in order.
pub open spec fn body_patch_list(b: DecodedBody, f: DefinedFunc) -> Option<Seq<RelocPatch>> {
    match gather_patches(b.operators@, b.bytes@, f.reloc_instrs@) {
        Some(ps) => if patches_ordered(ps, b.bytes@.len() as int) {
            Some(ps)
        } else {
            None
        },
        None => None,
    }
}

/// Every body lines up with its defined function.
pub open spec fn bodies_patchable(bodies: Seq<DecodedBody>, funcs: Seq<DefinedFunc>) -> bool {
    &&& bodies.len() == funcs.len()
    &&& forall|k: int| 0 <= k < bodies.len() ==> #[trigger] body_patch_list(bodies[k], funcs[k]) is Some
}

pub open spec fn section_patches(bodies: Seq<DecodedBody>, funcs: Seq<DefinedFunc>) -> Seq<
    Seq<RelocPatch>,
> {
    Seq::new(bodies.len(), |k: int| body_patch_list(bodies[k], funcs[k]).unwrap())
}

pub open spec fn patched_bodies(bodies: Seq<DecodedBody>, pss: Seq<Seq<RelocPatch>>) -> Seq<Seq<u8>> {
    Seq::new(bodies.len(), |k: int| patched_from(bodies[k].bytes@, pss[k], 0))
}

/// The entries of a code section: each body preceded by its length.
pub open spec fn code_entries(pbs: Seq<Seq<u8>>) -> Seq<u8>
    decreases pbs.len(),
{
    if pbs.len() == 0 {
        seq![]
    } else {
        code_entries(pbs.drop_last()) + leb_u32(pbs.last().len()) + pbs.last()
    }
}

/// A code section's payload: the number of bodies, then the entries.
pub open spec fn code_payload(pbs: Seq<Seq<u8>>) -> Seq<u8> {
    leb_u32(pbs.len()) + code_entries(pbs)
}

/// Where the `k`th body starts within the payload.
pub open spec fn body_start_in_code(pbs: Seq<Seq<u8>>, k: int) -> int {
    (leb_u32(pbs.len()).len() + code_entries(pbs.take(k)).len() + leb_u32(pbs[k].len()).len()) as int
}

/// The relocations of the first `k` bodies, with offsets relative to the
/// payload.
pub open spec fn section_relocations(pss: Seq<Seq<RelocPatch>>, pbs: Seq<Seq<u8>>, k: int) -> Seq<
    CodeRelocation,
>
    decreases k,
{
    if k <= 0 {
        seq![]
    } else {
        section_relocations(pss, pbs, k - 1) + Seq::new(
            pss[k - 1].len(),
            |m: int|
                CodeRelocation {
                    offset: (body_start_in_code(pbs, k - 1) + patched_offset(pss[k - 1], m)) as u32,
                    reloc_type: pss[k - 1][m].reloc_type,
                    target: pss[k - 1][m].target,
                },
        )
    }
}

/// How many patches the first `k` bodies have in all.
pub open spec fn patch_count(pss: Seq<Seq<RelocPatch>>, k: int) -> nat
    decreases k,
{
    if k <= 0 {
        0
    } else {
        patch_count(pss, k - 1) + pss[k - 1].len()
    }
}

/// The code section has one relocation per patched immediate.
pub proof fn law_relocation_count(pss: Seq<Seq<RelocPatch>>, pbs: Seq<Seq<u8>>, k: int)
    ensures
        section_relocations(pss, pbs, k).len() == patch_count(pss, k),
    decreases k,
{
    if k > 0 {
        law_relocation_count(pss, pbs, k - 1);
    }
}

/// Within a body, the patched immediates come in order, each starting at
/// least 5 bytes after the one before: every earlier one is widened to 5
/// bytes, and none overlap.
pub proof fn law_patched_offsets_increase(ps: Seq<RelocPatch>, len: int, j: int, k: int)
    requires
        patches_ordered(ps, len),
        0 <= j < k < ps.len(),
    ensures
        patched_offset(ps, j) + 5 <= patched_offset(ps, k),
    decreases k - j,
{
    assert(ps[k - 1].immediate_start + ps[k - 1].original_len <= ps[k].immediate_start);
    assert(growth(ps, k) == growth(ps, k - 1) + 5 - ps[k - 1].original_len);
    if j < k - 1 {
        law_patched_offsets_increase(ps, len, j, k - 1);
    }
}

/// `code` is the code section made of `bodies` for the defined functions
/// `funcs`: each body with the immediates that carry `@reloc` widened, and
/// one relocation per widened immediate.
pub open spec fn is_patched_section(code: PatchedCodeSection, bodies: Seq<DecodedBody>, funcs: Seq<DefinedFunc>) -> bool {
    let pss = section_patches(bodies, funcs);
    let pbs = patched_bodies(bodies, pss);
    &&& bodies_patchable(bodies, funcs)
    &&& code.payload@ == code_payload(pbs)
    &&& code.relocations@ == section_relocations(pss, pbs, bodies.len() as int)
}

/// `code` is the code section of some bodies for the defined functions
/// `funcs`, patched as `is_patched_section` says.
pub open spec fn patched_for(code: PatchedCodeSection, funcs: Seq<DefinedFunc>) -> bool {
    exists|bodies: Seq<DecodedBody>| #[trigger] is_patched_section(code, bodies, funcs)
}

/// Where no relocatable instruction of any defined function carries
/// `@reloc`, the code section is patched to its bodies as they were, with no
/// relocation.
pub proof fn law_unmarked_section_unchanged(bodies: Seq<DecodedBody>, funcs: Seq<DefinedFunc>)
    requires
        bodies_patchable(bodies, funcs),
        forall|k: int, j: int|
            0 <= k < funcs.len() && 0 <= j < funcs[k].reloc_instrs@.len() ==> !(
            #[trigger] funcs[k].reloc_instrs@[j]).has_reloc,
    ensures
        patched_bodies(bodies, section_patches(bodies, funcs)) == bodies.map_values(|b: DecodedBody| b.bytes@),
        section_relocations(
            section_patches(bodies, funcs),
            patched_bodies(bodies, section_patches(bodies, funcs)),
            bodies.len() as int,
        ).len() == 0,
{
    let pss = section_patches(bodies, funcs);
    let pbs = patched_bodies(bodies, pss);
    assert forall|k: int| 0 <= k < bodies.len() implies #[trigger] pss[k].len() == 0 by {
        assert(body_patch_list(bodies[k], funcs[k]) is Some);
        assert forall|j: int| 0 <= j < funcs[k].reloc_instrs@.len() implies !(
        #[trigger] funcs[k].reloc_instrs@[j]).has_reloc by {}
        law_unmarked_body_unpatched(bodies[k].operators@, bodies[k].bytes@, funcs[k].reloc_instrs@);
    }
    assert forall|k: int| 0 <= k < bodies.len() implies #[trigger] pbs[k] == bodies[k].bytes@ by {
        assert(pss[k].len() == 0);
        assert(bodies[k].bytes@.subrange(0, bodies[k].bytes@.len() as int) =~= bodies[k].bytes@);
    }
    assert(pbs =~= bodies.map_values(|b: DecodedBody| b.bytes@));
    lemma_section_relocations_empty(pss, pbs, bodies.len() as int);
}

proof fn lemma_section_relocations_empty(pss: Seq<Seq<RelocPatch>>, pbs: Seq<Seq<u8>>, k: int)
    requires
        k <= pss.len(),
        forall|j: int| 0 <= j < pss.len() ==> (#[trigger] pss[j]).len() == 0,
    ensures
        section_relocations(pss, pbs, k).len() == 0,
    decreases k,
{
    if k > 0 {
        lemma_section_relocations_empty(pss, pbs, k - 1);
        assert(pss[k - 1].len() == 0);
    }
}

/// Every relocation points at the padded 5-byte encoding of its target's
/// index within `payload`.
#[verifier::opaque]
pub open spec fn relocations_point_at_targets(payload: Seq<u8>, relocs: Seq<CodeRelocation>) -> bool {
    forall|i: int|
        #![trigger relocs[i]]
        0 <= i < relocs.len() ==> {
            &&& relocs[i].offset + 5 <= payload.len()
            &&& payload.subrange(relocs[i].offset as int, relocs[i].offset + 5) == leb_padded(
                relocs[i].target.spec_index() as nat,
                5,
            )
        }
}

proof fn lemma_code_entries_take(pbs: Seq<Seq<u8>>, k: int)
    requires
        0 <= k < pbs.len(),
    ensures
        code_entries(pbs.take(k + 1)) == code_entries(pbs.take(k)) + leb_u32(pbs[k].len())
            + pbs[k],
{
    let t = pbs.take(k + 1);
    assert(t.drop_last() =~= pbs.take(k));
    assert(t.last() == pbs[k]);
}

proof fn lemma_code_entries_grow(pbs: Seq<Seq<u8>>, k: int, n: int)
    requires
        0 <= k <= n <= pbs.len(),
    ensures
        code_entries(pbs.take(k)).len() <= code_entries(pbs.take(n)).len(),
    decreases n - k,
{
    if k < n {
        lemma_code_entries_grow(pbs, k, n - 1);
        lemma_code_entries_take(pbs, n - 1);
    }
}

/// The relocations of a patched body appended at `body_start` of the
/// payload.
pub open spec fn shifted_relocations(ps: Seq<RelocPatch>, body_start: int) -> Seq<CodeRelocation> {
    Seq::new(
        ps.len(),
        |m: int|
            CodeRelocation {
                offset: (body_start + patched_offset(ps, m)) as u32,
                reloc_type: ps[m].reloc_type,
                target: ps[m].target,
            },
    )
}

/// The relocations come in increasing order of offset.
pub open spec fn offsets_increase(relocs: Seq<CodeRelocation>) -> bool {
    forall|i: int, j: int| 0 <= i < j < relocs.len() ==> (#[trigger] relocs[i]).offset < (#[trigger] relocs[j]).offset
}

/// Every relocation's 5-byte immediate lies within the first `len` bytes.
pub open spec fn offsets_below(relocs: Seq<CodeRelocation>, len: int) -> bool {
    forall|i: int| 0 <= i < relocs.len() ==> (#[trigger] relocs[i]).offset + 5 <= len
}

proof fn lemma_offsets_append(
    old_rel: Seq<CodeRelocation>,
    before_len: int,
    start: int,
    body: Seq<u8>,
    ps: Seq<RelocPatch>,
)
    requires
        offsets_increase(old_rel),
        offsets_below(old_rel, before_len),
        0 <= before_len <= start,
        patches_ordered(ps, body.len() as int),
        start + patched_from(body, ps, 0).len() <= u32::MAX,
    ensures
        offsets_increase(old_rel + shifted_relocations(ps, start)),
        offsets_below(old_rel + shifted_relocations(ps, start), start + patched_from(body, ps, 0).len()),
{
    let sh = shifted_relocations(ps, start);
    let all = old_rel + sh;
    assert forall|k: int| 0 <= k < ps.len() implies (#[trigger] ps[k]).original_len <= 5 by {}
    assert forall|m: int| 0 <= m < sh.len() implies (#[trigger] sh[m]).offset == start + patched_offset(ps, m)
        && sh[m].offset + 5 <= start + patched_from(body, ps, 0).len() && sh[m].offset >= start by {
        lemma_offset_within_patched(body, ps, m);
        lemma_growth_nonneg(ps, m);
        let v = start + patched_offset(ps, m);
        assert(0 <= v <= u32::MAX);
        assert(sh[m].offset == v as u32);
        assert(v as u32 == v);
    }
    assert forall|i: int, j: int| 0 <= i < j < all.len() implies (#[trigger] all[i]).offset < (#[trigger] all[j]).offset by {
        if j < old_rel.len() {
            assert(all[i] == old_rel[i] && all[j] == old_rel[j]);
        } else if i < old_rel.len() {
            assert(all[i] == old_rel[i] && all[j] == sh[j - old_rel.len()]);
            assert(old_rel[i].offset + 5 <= before_len);
            assert(sh[j - old_rel.len()].offset >= start);
        } else {
            let a = i - old_rel.len();
            let b = j - old_rel.len();
            assert(all[i] == sh[a] && all[j] == sh[b]);
            law_patched_offsets_increase(ps, body.len() as int, a, b);
            assert(sh[a].offset == start + patched_offset(ps, a));
            assert(sh[b].offset == start + patched_offset(ps, b));
        }
    }
    assert forall|i: int| 0 <= i < all.len() implies (#[trigger] all[i]).offset + 5 <= start + patched_from(
        body,
        ps,
        0,
    ).len() by {
        if i < old_rel.len() {
            assert(all[i] == old_rel[i]);
        } else {
            assert(all[i] == sh[i - old_rel.len()]);
        }
    }
}

proof fn lemma_growth_nonneg(ps: Seq<RelocPatch>, m: int)
    requires
        0 <= m <= ps.len(),
        forall|k: int| 0 <= k < ps.len() ==> (#[trigger] ps[k]).original_len <= 5,
    ensures
        growth(ps, m) >= 0,
    decreases m,
{
    if m > 0 {
        lemma_growth_nonneg(ps, m - 1);
    }
}

/// Appends one patched body, preceded by its length, to the payload, and its
/// relocations, shifted to payload offsets, to `relocations`. Fails where the
/// payload would outgrow `u32` offsets.
fn append_patched_body(
    payload: &mut Vec<u8>,
    relocations: &mut Vec<CodeRelocation>,
    patched: &Vec<u8>,
    body_relocations: &Vec<CodeRelocation>,
    Ghost(body): Ghost<Seq<u8>>,
    Ghost(patches): Ghost<Seq<RelocPatch>>,
) -> (res: Result<(), Error>)
    requires
        old(payload).len() <= u32::MAX,
        patches_ordered(patches, body.len() as int),
        patched@ == patched_from(body, patches, 0),
        body_relocations.len() == patches.len(),
        forall|q: int|
            0 <= q < patches.len() ==> #[trigger] body_relocations@[q] == body_relocation(
                patches,
                q,
            ),
        relocations_point_at_targets(old(payload)@, old(relocations)@),
    ensures
        match res {
            Ok(()) => {
                &&& final(payload)@ == old(payload)@ + leb_u32(patched.len() as nat) + patched@
                &&& final(payload).len() <= u32::MAX
                &&& final(relocations)@ == old(relocations)@ + shifted_relocations(
                    patches,
                    (old(payload).len() + leb_u32(patched.len() as nat).len()) as int,
                )
                &&& relocations_point_at_targets(final(payload)@, final(relocations)@)
            },
            Err(_) => old(payload).len() + leb_u32(patched.len() as nat).len() + patched.len()
                > u32::MAX,
        },
{
    reveal(relocations_point_at_targets);
    proof {
        lemma_patched_from(body, patches, 0);
    }
    if patched.len() > 0xffff_ffff {
        return Err(Error::new(0, ErrorKind::Inconsistent));
    }
    let ghost before = payload@;
    let ghost old_relocations = relocations@;
    encode_u32(patched.len() as u32, payload);
    let body_start = payload.len();
    extend_bytes(payload, patched.as_slice(), 0, patched.len());
    proof {
        assert(patched@.subrange(0, patched.len() as int) =~= patched@);
    }
    if payload.len() > 0xffff_ffff {
        return Err(Error::new(0, ErrorKind::Inconsistent));
    }
    proof {
        assert forall|i: int| #![trigger old_relocations[i]] 0 <= i < old_relocations.len() implies {
            &&& old_relocations[i].offset + 5 <= payload@.len()
            &&& payload@.subrange(old_relocations[i].offset as int, old_relocations[i].offset + 5)
                == leb_padded(old_relocations[i].target.spec_index() as nat, 5)
        } by {
            let o = old_relocations[i].offset as int;
            assert(payload@.subrange(o, o + 5) =~= before.subrange(o, o + 5));
        }
    }
    let mut m: usize = 0;
    while m < body_relocations.len()
        invariant
            body_relocations.len() == patches.len(),
            forall|q: int|
                0 <= q < patches.len() ==> #[trigger] body_relocations@[q] == body_relocation(
                    patches,
                    q,
                ),
            m <= body_relocations.len(),
            body_start == before.len() + leb_u32(patched.len() as nat).len(),
            payload@ == before + leb_u32(patched.len() as nat) + patched@,
            payload.len() <= u32::MAX,
            relocations@ == old_relocations + shifted_relocations(patches, body_start as int).take(
                m as int,
            ),
            relocations_point_at_targets(payload@, relocations@),
            forall|q: int|
                #![trigger patches[q]]
                0 <= q < patches.len() ==> {
                    let o = patches[q].immediate_start + growth(patches, q);
                    &&& 0 <= o
                    &&& o + 5 <= patched@.len()
                    &&& patched@.subrange(o, o + 5) == leb_padded(
                        patches[q].target.spec_index() as nat,
                        5,
                    )
                },
        decreases body_relocations.len() - m,
    {
        reveal(relocations_point_at_targets);
        let r = body_relocations[m];
        assert(r == body_relocation(patches, m as int));
        assert(patches[m as int] == patches[m as int]);
        let offset = body_start + r.offset as usize;
        let entry = CodeRelocation { offset: offset as u32, reloc_type: r.reloc_type, target: r.target };
        proof {
            let o = patched_offset(patches, m as int);
            assert(payload@.subrange(offset as int, offset + 5) =~= patched@.subrange(o, o + 5));
            assert(shifted_relocations(patches, body_start as int).take(m + 1) =~= shifted_relocations(
                patches,
                body_start as int,
            ).take(m as int).push(entry));
        }
        let ghost prior = relocations@;
        relocations.push(entry);
        proof {
            assert forall|i: int| #![trigger relocations@[i]] 0 <= i < relocations@.len() implies {
                &&& relocations@[i].offset + 5 <= payload@.len()
                &&& payload@.subrange(relocations@[i].offset as int, relocations@[i].offset + 5)
                    == leb_padded(relocations@[i].target.spec_index() as nat, 5)
            } by {
                if i < prior.len() {
                    assert(relocations@[i] == prior[i]);
                } else {
                    assert(relocations@[i] == entry);
                }
            }
        }
        m += 1;
    }
    proof {
        assert(shifted_relocations(patches, body_start as int).take(m as int) =~= shifted_relocations(
            patches,
            body_start as int,
        ));
    }
    Ok(())
}

/// Rewrites the function bodies of a code section: each body's relocatable
/// immediates that carry `@reloc` are widened, and the section's payload is
/// assembled with one relocation per widened immediate, its offset relative
/// to the payload. Fails where a body does not line up with its function or
/// where the payload would not fit in `u32` offsets.
#[verifier::spinoff_prover]
pub fn patch_code_bodies(
    section_index: u32,
    bodies: &Vec<DecodedBody>,
    defined_funcs: &Vec<DefinedFunc>,
) -> (res: Result<PatchedCodeSection, Error>)
    ensures
        ({
            let pss = section_patches(bodies@, defined_funcs@);
            let pbs = patched_bodies(bodies@, pss);
            match res {
                Ok(code) => {
                    &&& bodies_patchable(bodies@, defined_funcs@)
                    &&& bodies.len() <= u32::MAX
                    &&& code.section_index == section_index
                    &&& code.payload@ == code_payload(pbs)
                    &&& code.payload.len() <= u32::MAX
                    &&& code.relocations@ == section_relocations(pss, pbs, bodies.len() as int)
                    &&& relocations_point_at_targets(code.payload@, code.relocations@)
                    &&& offsets_increase(code.relocations@)
                },
                Err(_) => !bodies_patchable(bodies@, defined_funcs@) || bodies.len() > u32::MAX
                    || code_payload(pbs).len() > u32::MAX,
            }
        }),
{
    let ghost pss = section_patches(bodies@, defined_funcs@);
    let ghost pbs = patched_bodies(bodies@, pss);
    if bodies.len() != defined_funcs.len() || bodies.len() > 0xffff_ffff {
        return Err(Error::new(0, ErrorKind::Inconsistent));
    }
    let n = bodies.len();
    let mut payload: Vec<u8> = Vec::new();
    encode_u32(n as u32, &mut payload);
    let mut relocations: Vec<CodeRelocation> = Vec::new();
    let mut k: usize = 0;
    proof {
        reveal(relocations_point_at_targets);
        lemma_leb_u32_len(n as nat);
        assert(pbs.take(0) =~= Seq::<Seq<u8>>::empty());
        assert(payload@ =~= leb_u32(n as nat) + code_entries(pbs.take(0)));
    }
    while k < n
        invariant
            n == bodies.len(),
            n == defined_funcs.len(),
            n <= u32::MAX,
            k <= n,
            pss == section_patches(bodies@, defined_funcs@),
            pbs == patched_bodies(bodies@, pss),
            forall|j: int|
                0 <= j < k ==> #[trigger] body_patch_list(bodies@[j], defined_funcs@[j]) is Some,
            payload@ == leb_u32(n as nat) + code_entries(pbs.take(k as int)),
            payload.len() <= u32::MAX,
            relocations@ == section_relocations(pss, pbs, k as int),
            relocations_point_at_targets(payload@, relocations@),
            offsets_increase(relocations@),
            offsets_below(relocations@, payload.len() as int),
        decreases n - k,
    {
        let body = &bodies[k];
        let func = &defined_funcs[k];
        let patches = match reloc_patches(&body.operators, body.bytes.as_slice(), func) {
            Ok(ps) => ps,
            Err(e) => {
                assert(body_patch_list(bodies@[k as int], defined_funcs@[k as int]) is None);
                return Err(e);
            },
        };
        assert(body_patch_list(bodies@[k as int], defined_funcs@[k as int]) == Some(patches@));
        assert(pss[k as int] == patches@);
        proof {
            lemma_code_entries_take(pbs, k as int);
        }
        let (patched, body_relocations) = match patch_function_body(body.bytes.as_slice(), &patches) {
            Ok(r) => r,
            Err(e) => {
                proof {
                    let m = choose|m: int|
                        0 <= m < patches.len() && patched_offset(patches@, m) > u32::MAX;
                    lemma_offset_within_patched(body.bytes@, patches@, m);
                    assert(pbs[k as int].len() > u32::MAX);
                    lemma_code_entries_grow(pbs, k + 1, n as int);
                    assert(pbs.take(n as int) =~= pbs);
                }
                return Err(e);
            },
        };
        assert(pbs[k as int] == patched@);
        let ghost before = payload@;
        let ghost old_relocations = relocations@;
        match append_patched_body(
            &mut payload,
            &mut relocations,
            &patched,
            &body_relocations,
            Ghost(body.bytes@),
            Ghost(patches@),
        ) {
            Ok(()) => {},
            Err(e) => {
                proof {
                    lemma_code_entries_grow(pbs, k + 1, n as int);
                    assert(pbs.take(n as int) =~= pbs);
                }
                return Err(e);
            },
        }
        proof {
            lemma_offsets_append(
                old_relocations,
                before.len() as int,
                (before.len() + leb_u32(patched.len() as nat).len()) as int,
                body.bytes@,
                patches@,
            );
            assert(body_start_in_code(pbs, k as int) == before.len() + leb_u32(patched.len() as nat).len());
            assert(section_relocations(pss, pbs, k + 1) =~= old_relocations + shifted_relocations(
                patches@,
                (before.len() + leb_u32(patched.len() as nat).len()) as int,
            ));
        }
        k += 1;
    }
    proof {
        assert(pbs.take(n as int) =~= pbs);
        assert(pbs.len() == n);
    }
    Ok(PatchedCodeSection { section_index, payload, relocations })
}


/// The first relocation target, in order, that has no symbol.
pub open spec fn first_unlisted(relocs: Seq<CodeRelocation>, indices: Map<SymbolKey, u32>) -> Option<
    SymbolKey,
>
    decreases relocs.len(),
{
    if relocs.len() == 0 {
        None
    } else {
        match first_unlisted(relocs.drop_last(), indices) {
            Some(k) => Some(k),
            None => if indices.dom().contains(relocs.last().target) {
                None
            } else {
                Some(relocs.last().target)
            },
        }
    }
}

/// The encoded entries of `reloc.CODE`: per relocation its type, its offset
/// and the index of its target's symbol.
pub open spec fn reloc_entries(relocs: Seq<CodeRelocation>, indices: Map<SymbolKey, u32>) -> Seq<u8>
    decreases relocs.len(),
{
    if relocs.len() == 0 {
        seq![]
    } else {
        let r = relocs.last();
        reloc_entries(relocs.drop_last(), indices) + seq![r.reloc_type] + leb_u32(r.offset as nat)
            + leb_u32(indices[r.target] as nat)
    }
}

/// The error for a relocation target without a symbol.
pub open spec fn unlisted_error(key: SymbolKey) -> ErrorKind {
    match key {
        SymbolKey::Tag(_) => ErrorKind::TagSymbolUnsupported,
        _ => ErrorKind::Inconsistent,
    }
}

/// The payload of the `reloc.CODE` custom section: the code section's index,
/// the number of relocations, and the entries. `None` where there is no code
/// section or no relocation.
pub fn encode_reloc_code_section(link_info: &LinkInfo, code: Option<&PatchedCodeSection>) -> (res:
    Result<Option<Vec<u8>>, Error>)
    ensures
        match code {
            None => res matches Ok(None),
            Some(c) => if c.relocations.len() == 0 {
                res matches Ok(None)
            } else if c.relocations.len() > u32::MAX {
                res is Err
            } else {
                match first_unlisted(c.relocations@, link_info.symbol_indices@) {
                    Some(k) => res matches Err(e) && e.kind == unlisted_error(k),
                    None => res matches Ok(Some(data)) && data@ == leb_u32(c.section_index as nat)
                        + leb_u32(c.relocations.len() as nat) + reloc_entries(
                        c.relocations@,
                        link_info.symbol_indices@,
                    ),
                }
            },
        },
{
    let section = match code {
        None => return Ok(None),
        Some(c) => c,
    };
    if section.relocations.len() == 0 {
        return Ok(None);
    }
    if section.relocations.len() > 0xffff_ffff {
        return Err(Error::new(0, ErrorKind::Inconsistent));
    }
    let ghost relocs = section.relocations@;
    let ghost indices = link_info.symbol_indices@;
    let mut data: Vec<u8> = Vec::new();
    encode_u32(section.section_index, &mut data);
    encode_u32(section.relocations.len() as u32, &mut data);
    let ghost head = data@;
    let mut i: usize = 0;
    proof {
        assert(relocs.take(0) =~= Seq::<CodeRelocation>::empty());
        assert(data@ =~= head + reloc_entries(relocs.take(0), indices));
    }
    while i < section.relocations.len()
        invariant
            code == Some(section),
            relocs == section.relocations@,
            indices == link_info.symbol_indices@,
            i <= relocs.len(),
            first_unlisted(relocs.take(i as int), indices) is None,
            data@ == head + reloc_entries(relocs.take(i as int), indices),
        decreases relocs.len() - i,
    {
        let reloc = section.relocations[i];
        let ghost t = relocs.take(i + 1);
        proof {
            assert(t.drop_last() =~= relocs.take(i as int));
            assert(t.last() == reloc);
        }
        let index = match link_info.symbol_indices.get(reloc.target) {
            Some(index) => index,
            None => {
                proof {
                    assert(first_unlisted(t, indices) == Some(reloc.target));
                    lemma_first_unlisted_prefix(relocs, i + 1, relocs.len() as int, indices);
                    assert(relocs.take(relocs.len() as int) =~= relocs);
                }
                let kind = match reloc.target {
                    SymbolKey::Tag(_) => ErrorKind::TagSymbolUnsupported,
                    _ => ErrorKind::Inconsistent,
                };
                return Err(Error::new(0, kind));
            },
        };
        data.push(reloc.reloc_type);
        encode_u32(reloc.offset, &mut data);
        encode_u32(index, &mut data);
        proof {
            assert(data@ =~= head + reloc_entries(t, indices));
        }
        i += 1;
    }
    proof {
        assert(relocs.take(i as int) =~= relocs);
    }
    Ok(Some(data))
}

proof fn lemma_first_unlisted_prefix(
    relocs: Seq<CodeRelocation>,
    n: int,
    m: int,
    indices: Map<SymbolKey, u32>,
)
    requires
        0 <= n <= m <= relocs.len(),
        first_unlisted(relocs.take(n), indices) is Some,
    ensures
        first_unlisted(relocs.take(m), indices) == first_unlisted(relocs.take(n), indices),
    decreases m - n,
{
    if n < m {
        lemma_first_unlisted_prefix(relocs, n, m - 1, indices);
        assert(relocs.take(m).drop_last() =~= relocs.take(m - 1));
    }
}

/// Every relocation has the relocation type of its target's kind.
pub open spec fn relocations_typed(relocs: Seq<CodeRelocation>) -> bool {
    forall|i: int| 0 <= i < relocs.len() ==> (#[trigger] relocs[i]).reloc_type == reloc_type_for(relocs[i].target)
}

proof fn lemma_gather_patches_typed(ops: Seq<BodyOperator>, body: Seq<u8>, instrs: Seq<ParsedRelocInstruction>)
    ensures
        gather_patches(ops, body, instrs) matches Some(ps) ==> patches_typed(ps),
    decreases ops.len(),
{
    if ops.len() > 0 {
        lemma_operator_patches_typed(ops[0].operator, ops[0].offset as int, body);
        lemma_gather_patches_typed(ops.drop_first(), body, instrs);
        if instrs.len() > 0 {
            lemma_gather_patches_typed(ops.drop_first(), body, instrs.drop_first());
        }
        if let Some(Some(ps)) = spec_operator_patches(ops[0].operator, ops[0].offset as int, body) {
            if instrs.len() > 0 {
                if let Some(rest) = gather_patches(ops.drop_first(), body, instrs.drop_first()) {
                    let all = ps + rest;
                    assert forall|i: int| 0 <= i < all.len() implies (#[trigger] all[i]).reloc_type
                        == reloc_type_for(all[i].target) by {
                        if i < ps.len() {
                            assert(all[i] == ps[i]);
                        } else {
                            assert(all[i] == rest[i - ps.len()]);
                        }
                    }
                }
            }
        }
    }
}

proof fn lemma_section_relocations_typed(pss: Seq<Seq<RelocPatch>>, pbs: Seq<Seq<u8>>, k: int)
    requires
        k <= pss.len(),
        forall|j: int| 0 <= j < k ==> patches_typed(#[trigger] pss[j]),
    ensures
        relocations_typed(section_relocations(pss, pbs, k)),
    decreases k,
{
    if k > 0 {
        lemma_section_relocations_typed(pss, pbs, k - 1);
        let prev = section_relocations(pss, pbs, k - 1);
        let ps = pss[k - 1];
        assert(patches_typed(ps));
        let added = Seq::new(
            ps.len(),
            |m: int|
                CodeRelocation {
                    offset: (body_start_in_code(pbs, k - 1) + patched_offset(ps, m)) as u32,
                    reloc_type: ps[m].reloc_type,
                    target: ps[m].target,
                },
        );
        let all = section_relocations(pss, pbs, k);
        assert(all == prev + added);
        assert forall|i: int| 0 <= i < all.len() implies (#[trigger] all[i]).reloc_type == reloc_type_for(
            all[i].target,
        ) by {
            if i < prev.len() {
                assert(all[i] == prev[i]);
            } else {
                assert(all[i] == added[i - prev.len()]);
                assert(ps[i - prev.len()] == ps[i - prev.len()]);
            }
        }
    }
}

/// Every relocation of a code section has the relocation type of its
/// target's kind: function indices, table numbers and tag indices.
pub proof fn law_relocation_types(bodies: Seq<DecodedBody>, funcs: Seq<DefinedFunc>, pbs: Seq<Seq<u8>>)
    requires
        bodies_patchable(bodies, funcs),
    ensures
        relocations_typed(section_relocations(section_patches(bodies, funcs), pbs, bodies.len() as int)),
{
    let pss = section_patches(bodies, funcs);
    assert forall|j: int| 0 <= j < bodies.len() implies patches_typed(#[trigger] pss[j]) by {
        assert(body_patch_list(bodies[j], funcs[j]) is Some);
        lemma_gather_patches_typed(bodies[j].operators@, bodies[j].bytes@, funcs[j].reloc_instrs@);
    }
    lemma_section_relocations_typed(pss, pbs, bodies.len() as int);
}

/// Where no relocation target is missing from `indices`, every one of them
/// is in it.
pub proof fn lemma_first_unlisted_none(relocs: Seq<CodeRelocation>, indices: Map<SymbolKey, u32>)
    requires
        first_unlisted(relocs, indices) is None,
    ensures
        forall|i: int| 0 <= i < relocs.len() ==> indices.dom().contains(#[trigger] relocs[i].target),
    decreases relocs.len(),
{
    if relocs.len() > 0 {
        lemma_first_unlisted_none(relocs.drop_last(), indices);
        assert forall|i: int| 0 <= i < relocs.len() implies indices.dom().contains(#[trigger] relocs[i].target) by {
            if i < relocs.len() - 1 {
                assert(relocs[i] == relocs.drop_last()[i]);
            }
        }
    }
}

} // verus!
