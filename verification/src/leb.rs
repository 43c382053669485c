//! Unsigned LEB128 encodings used by relocatable immediates.

use vstd::prelude::*;

verus! {

/// The minimal unsigned LEB128 encoding of `v`.
pub open spec fn leb_u32(v: nat) -> Seq<u8>
    decreases v,
{
    if v < 128 {
        seq![v as u8]
    } else {
        seq![(v % 128 + 128) as u8] + leb_u32(v / 128)
    }
}

/// The unsigned LEB128 encoding of `v` padded to exactly `n` bytes
/// (every byte but the last carries the continuation bit).
pub open spec fn leb_padded(v: nat, n: nat) -> Seq<u8>
    decreases n,
{
    if n <= 1 {
        seq![v as u8]
    } else {
        seq![(v % 128 + 128) as u8] + leb_padded(v / 128, (n - 1) as nat)
    }
}

/// The number that an LEB128 byte sequence stands for (continuation bits
/// ignored).
pub open spec fn leb_value(s: Seq<u8>) -> nat
    decreases s.len(),
{
    if s.len() == 0 {
        0
    } else {
        (s[0] % 128) as nat + 128 * leb_value(s.drop_first())
    }
}

/// Whether `s` is a well-formed LEB128 byte sequence: every byte but the last
/// has its high bit set, and the last does not.
pub open spec fn is_leb(s: Seq<u8>) -> bool {
    &&& s.len() >= 1
    &&& forall|i: int| 0 <= i < s.len() - 1 ==> s[i] >= 128
    &&& s[s.len() - 1] < 128
}

/// The length of the LEB128 number that starts at `offset` in `s`, reading at
/// most `max_len` bytes; `None` when no terminating byte is found in range.
pub open spec fn leb_len_from(s: Seq<u8>, offset: int, max_len: int) -> Option<nat>
    decreases max_len,
{
    if max_len <= 0 || offset < 0 || offset >= s.len() {
        None
    } else if s[offset] < 128 {
        Some(1nat)
    } else {
        match leb_len_from(s, offset + 1, max_len - 1) {
            Some(k) => Some(k + 1),
            None => None,
        }
    }
}

/// `o` with `k` added to the length it holds.
pub open spec fn add_len(o: Option<nat>, k: nat) -> Option<nat> {
    match o {
        Some(l) => Some(l + k),
        None => None,
    }
}

pub open spec fn pow128(n: nat) -> nat
    decreases n,
{
    if n == 0 {
        1
    } else {
        128 * pow128((n - 1) as nat)
    }
}

/// A padded encoding has the requested length, is well formed, and decodes
/// back to the value whenever the value fits.
pub proof fn lemma_leb_padded(v: nat, n: nat)
    requires
        n >= 1,
        v < pow128(n),
    ensures
        leb_padded(v, n).len() == n,
        is_leb(leb_padded(v, n)),
        leb_value(leb_padded(v, n)) == v,
    decreases n,
{
    reveal_with_fuel(pow128, 2);
    if n == 1 {
        assert(v < 128);
        assert(leb_padded(v, n) =~= seq![v as u8]);
        assert(leb_value(seq![v as u8].drop_first()) == 0);
    } else {
        assert(v / 128 < pow128((n - 1) as nat));
        lemma_leb_padded(v / 128, (n - 1) as nat);
        let rest = leb_padded(v / 128, (n - 1) as nat);
        let s = leb_padded(v, n);
        assert(s =~= seq![(v % 128 + 128) as u8] + rest);
        assert(s.drop_first() =~= rest);
        assert forall|i: int| 0 <= i < s.len() - 1 implies s[i] >= 128 by {
            if i > 0 {
                assert(s[i] == rest[i - 1]);
            }
        }
        assert(s[s.len() - 1] == rest[rest.len() - 1]);
    }
}

/// The minimal encoding is well formed and decodes back to the value.
pub proof fn lemma_leb_u32(v: nat)
    ensures
        is_leb(leb_u32(v)),
        leb_value(leb_u32(v)) == v,
        leb_u32(v).len() >= 1,
    decreases v,
{
    if v < 128 {
        assert(leb_u32(v) =~= seq![v as u8]);
        assert(leb_value(seq![v as u8].drop_first()) == 0);
    } else {
        lemma_leb_u32(v / 128);
        let rest = leb_u32(v / 128);
        let s = leb_u32(v);
        assert(s.drop_first() =~= rest);
        assert forall|i: int| 0 <= i < s.len() - 1 implies s[i] >= 128 by {
            if i > 0 {
                assert(s[i] == rest[i - 1]);
            }
        }
        assert(s[s.len() - 1] == rest[rest.len() - 1]);
    }
}

/// The length of the minimal encoding by magnitude.
pub proof fn lemma_leb_u32_len(v: nat)
    ensures
        v < 0x80 ==> leb_u32(v).len() == 1,
        0x80 <= v < 0x4000 ==> leb_u32(v).len() == 2,
        0x4000 <= v < 0x20_0000 ==> leb_u32(v).len() == 3,
        0x20_0000 <= v < 0x1000_0000 ==> leb_u32(v).len() == 4,
        0x1000_0000 <= v < 0x8_0000_0000 ==> leb_u32(v).len() == 5,
{
    reveal_with_fuel(leb_u32, 6);
}

/// Number of bytes of the minimal LEB128 encoding of `value`.
pub fn u32_leb_len(value: u32) -> (len: usize)
    ensures
        len == leb_u32(value as nat).len(),
        1 <= len <= 5,
{
    proof {
        lemma_leb_u32_len(value as nat);
    }
    if value <= 0x7f {
        1
    } else if value <= 0x3fff {
        2
    } else if value <= 0x1f_ffff {
        3
    } else if value <= 0x0fff_ffff {
        4
    } else {
        5
    }
}

/// Appends `value` as a 5-byte padded LEB128 number, the fixed-width form that
/// keeps relocation offsets stable.
pub fn encode_5_byte_u32_leb(value: u32, dst: &mut Vec<u8>)
    ensures
        final(dst)@ == old(dst)@ + leb_padded(value as nat, 5),
{
    let ghost orig_dst = dst@;
    let ghost orig_value = value as nat;
    let mut value = value;
    let mut i: usize = 0;
    while i < 4
        invariant
            i <= 4,
            dst@ + leb_padded(value as nat, (5 - i) as nat) == orig_dst + leb_padded(orig_value, 5),
        decreases 4 - i,
    {
        let byte = (#[verifier::truncate] ((value & 0x7f) as u8)) | 0x80;
        assert(byte == ((value as nat % 128 + 128) as u8)) by (bit_vector)
            requires
                byte == (#[verifier::truncate] ((value & 0x7f) as u8)) | 0x80,
        ;
        let next = value >> 7;
        assert(next == value / 128) by (bit_vector)
            requires
                next == value >> 7,
        ;
        proof {
            let k = (5 - i) as nat;
            assert(leb_padded(value as nat, k) =~= seq![byte] + leb_padded(next as nat, (k - 1) as nat));
        }
        dst.push(byte);
        value = next;
        i += 1;
    }
    proof {
        assert(leb_padded(value as nat, 1) =~= seq![#[verifier::truncate] (value as u8)]);
    }
    dst.push(#[verifier::truncate] (value as u8));
}


/// A terminating byte found within range bounds the number's length.
pub proof fn lemma_leb_len_from_bounds(s: Seq<u8>, offset: int, max_len: int)
    ensures
        leb_len_from(s, offset, max_len) matches Some(l) ==> {
            &&& 1 <= l <= max_len
            &&& 0 <= offset
            &&& offset + l <= s.len()
            &&& is_leb(s.subrange(offset, offset + l))
        },
    decreases max_len,
{
    if max_len > 0 && 0 <= offset < s.len() && s[offset] >= 128 {
        lemma_leb_len_from_bounds(s, offset + 1, max_len - 1);
        if let Some(l) = leb_len_from(s, offset + 1, max_len - 1) {
            let sub = s.subrange(offset, offset + l + 1);
            let rest = s.subrange(offset + 1, offset + 1 + l);
            assert forall|i: int| 0 <= i < sub.len() - 1 implies sub[i] >= 128 by {
                if i > 0 {
                    assert(sub[i] == rest[i - 1]);
                }
            }
            assert(sub[sub.len() - 1] == rest[rest.len() - 1]);
        }
    }
}

/// A well-formed LEB128 number of at most `max_len` bytes at `offset` is
/// read back with its own length.
pub proof fn lemma_leb_len_of_leb(s: Seq<u8>, offset: int, e: Seq<u8>, max_len: int)
    requires
        is_leb(e),
        e.len() <= max_len,
        0 <= offset,
        offset + e.len() <= s.len(),
        s.subrange(offset, offset + e.len()) == e,
    ensures
        leb_len_from(s, offset, max_len) == Some(e.len()),
    decreases e.len(),
{
    assert(s[offset] == e[0]);
    if e.len() > 1 {
        let rest = e.drop_first();
        assert(s.subrange(offset + 1, offset + 1 + rest.len()) =~= rest);
        assert forall|i: int| 0 <= i < rest.len() - 1 implies rest[i] >= 128 by {
            assert(rest[i] == e[i + 1]);
        }
        assert(rest[rest.len() - 1] == e[e.len() - 1]);
        lemma_leb_len_of_leb(s, offset + 1, rest, max_len - 1);
    }
}

/// What is written as a `u32` in LEB128, minimal or padded to 5 bytes,
/// reads back with the length written, whatever surrounds it.
pub proof fn law_leb_len_read_back(pre: Seq<u8>, v: nat, post: Seq<u8>)
    requires
        v <= u32::MAX,
    ensures
        leb_len_from(pre + leb_u32(v) + post, pre.len() as int, 5) == Some(leb_u32(v).len()),
        leb_len_from(pre + leb_padded(v, 5) + post, pre.len() as int, 5) == Some(5nat),
{
    lemma_leb_u32(v);
    lemma_leb_u32_len(v);
    let m = leb_u32(v);
    let s1 = pre + m + post;
    assert(s1.subrange(pre.len() as int, (pre.len() + m.len()) as int) =~= m);
    lemma_leb_len_of_leb(s1, pre.len() as int, m, 5);
    reveal_with_fuel(pow128, 6);
    assert(v < pow128(5));
    lemma_leb_padded(v, 5);
    let p = leb_padded(v, 5);
    let s2 = pre + p + post;
    assert(s2.subrange(pre.len() as int, (pre.len() + p.len()) as int) =~= p);
    lemma_leb_len_of_leb(s2, pre.len() as int, p, 5);
}

/// Whether an LEB128 number of at most `max_len` bytes starts at `offset`.
pub fn has_leb_at(body: &[u8], offset: usize, max_len: usize) -> (b: bool)
    ensures
        b == leb_len_from(body@, offset as int, max_len as int) is Some,
{
    if offset >= body.len() {
        return false;
    }
    let mut i: usize = 0;
    while i < max_len && i < body.len() - offset
        invariant
            offset < body.len(),
            i <= max_len,
            i <= body.len() - offset,
            leb_len_from(body@, offset as int, max_len as int) is Some
                == leb_len_from(body@, offset + i, max_len - i) is Some,
        decreases max_len - i,
    {
        if body[offset + i] & 0x80 == 0 {
            let b = body[offset + i];
            assert(b & 0x80 == 0 ==> b < 128) by (bit_vector);
            return true;
        }
        let b = body[offset + i];
        assert(b & 0x80 != 0 ==> b >= 128) by (bit_vector);
        i += 1;
    }
    false
}

/// Length of the LEB128 number starting at `offset`, reading at most
/// `max_len` bytes.
pub fn leb_len_at(body: &[u8], offset: usize, max_len: usize) -> (len: usize)
    requires
        leb_len_from(body@, offset as int, max_len as int) is Some,
    ensures
        leb_len_from(body@, offset as int, max_len as int) == Some(len as nat),
        1 <= len <= max_len,
        offset + len <= body.len(),
{
    proof {
        lemma_leb_len_from_bounds(body@, offset as int, max_len as int);
    }
    let mut i: usize = 0;
    while i < max_len
        invariant
            offset < body.len(),
            i < max_len,
            offset + i < body.len(),
            leb_len_from(body@, offset + i, max_len - i) is Some,
            leb_len_from(body@, offset as int, max_len as int) == add_len(
                leb_len_from(body@, offset + i, max_len - i),
                i as nat,
            ),
        decreases max_len - i,
    {
        let b = body[offset + i];
        if b & 0x80 == 0 {
            assert(b & 0x80 == 0 ==> b < 128) by (bit_vector);
            return i + 1;
        }
        assert(b & 0x80 != 0 ==> b >= 128) by (bit_vector);
        proof {
            lemma_leb_len_from_bounds(body@, offset + i + 1, max_len - i - 1);
        }
        i += 1;
    }
    0
}

/// Length of the (at most 5-byte) `u32` LEB128 number at `offset`.
pub fn u32_leb_len_at(body: &[u8], offset: usize) -> (len: usize)
    requires
        leb_len_from(body@, offset as int, 5) is Some,
    ensures
        leb_len_from(body@, offset as int, 5) == Some(len as nat),
        1 <= len <= 5,
        offset + len <= body.len(),
{
    leb_len_at(body, offset, 5)
}

/// Length of the `u32` LEB128 number at `offset`, or `None` where none ends
/// within five bytes.
pub fn checked_u32_leb_len_at(body: &[u8], offset: usize) -> (len: Option<usize>)
    ensures
        len matches Some(l) ==> leb_len_from(body@, offset as int, 5) == Some(l as nat)
            && 1 <= l <= 5 && offset + l <= body.len(),
        len is None ==> leb_len_from(body@, offset as int, 5) is None,
{
    if has_leb_at(body, offset, 5) {
        Some(u32_leb_len_at(body, offset))
    } else {
        None
    }
}

/// Length of a block type: an optional reference-type prefix byte followed by
/// an LEB128 number.
pub open spec fn block_type_len(s: Seq<u8>, offset: int) -> Option<nat> {
    if offset < 0 || offset >= s.len() {
        None
    } else {
        let prefix: int = if s[offset] == 0x63 || s[offset] == 0x64 { 1 } else { 0 };
        match leb_len_from(s, offset + prefix, 5) {
            Some(l) => Some((l + prefix) as nat),
            None => None,
        }
    }
}

/// Byte length of the block type at `offset`.
pub fn block_type_len_at(body: &[u8], offset: usize) -> (len: usize)
    requires
        block_type_len(body@, offset as int) is Some,
    ensures
        block_type_len(body@, offset as int) == Some(len as nat),
        offset + len <= body.len(),
        1 <= len <= 6,
{
    let prefix_len: usize = if body[offset] == 0x63 || body[offset] == 0x64 { 1 } else { 0 };
    prefix_len + leb_len_at(body, offset + prefix_len, 5)
}

/// Block type length, or `None` where the bytes at `offset` do not hold one.
pub fn checked_block_type_len_at(body: &[u8], offset: usize) -> (len: Option<usize>)
    ensures
        len matches Some(l) ==> block_type_len(body@, offset as int) == Some(l as nat)
            && offset + l <= body.len(),
        len is None ==> block_type_len(body@, offset as int) is None,
{
    if offset >= body.len() {
        return None;
    }
    let prefix_len: usize = if body[offset] == 0x63 || body[offset] == 0x64 { 1 } else { 0 };
    if has_leb_at(body, offset + prefix_len, 5) {
        Some(block_type_len_at(body, offset))
    } else {
        None
    }
}

/// Where the immediates of a prefixed (`0xfc`/`0xfe`) instruction start: past
/// the prefix byte and the LEB128 sub-opcode.
pub open spec fn prefixed_start_of(s: Seq<u8>, offset: int) -> Option<int> {
    match leb_len_from(s, offset + 1, 5) {
        Some(l) => Some(offset + 1 + l),
        None => None,
    }
}

/// Start of the immediates of the prefixed instruction at `offset`.
pub fn prefixed_start(offset: usize, body: &[u8]) -> (start: usize)
    requires
        prefixed_start_of(body@, offset as int) is Some,
    ensures
        prefixed_start_of(body@, offset as int) == Some(start as int),
        start <= body.len(),
{
    proof {
        lemma_leb_len_from_bounds(body@, offset + 1, 5);
    }
    let subopcode_start = offset + 1;
    subopcode_start + u32_leb_len_at(body, subopcode_start)
}

/// Start of the immediates of a prefixed instruction, or `None` where its
/// sub-opcode is not a well-formed number.
pub fn checked_prefixed_start(offset: usize, body: &[u8]) -> (start: Option<usize>)
    ensures
        start matches Some(st) ==> prefixed_start_of(body@, offset as int) == Some(st as int)
            && st <= body.len(),
        start is None ==> prefixed_start_of(body@, offset as int) is None,
{
    if offset >= body.len() {
        return None;
    }
    if has_leb_at(body, offset + 1, 5) {
        Some(prefixed_start(offset, body))
    } else {
        None
    }
}

} // verus!
