use crate::error::ReadingError;
use vstd::prelude::*;

verus! {

/// A 32-bit integer on the wire: seven bits per byte, low bits first, the high bit of
/// each byte set when another byte follows. Negative values take five bytes.
#[derive(Debug, Clone, Copy, PartialEq, Eq, Structural)]
pub struct VarInt(pub i32);

/// The most bytes a VarInt takes.
pub const VAR_INT_MAX_SIZE: usize = 5;

/// The bytes that encode the unsigned 32-bit pattern `u`.
pub open spec fn encode_var_u32(u: u32) -> Seq<u8>
    decreases u,
{
    if u < 0x80 {
        seq![u as u8]
    } else {
        proof {
            assert(u >= 0x80 ==> u >> 7 < u) by (bit_vector);
        }
        seq![((u & 0x7f) | 0x80) as u8] + encode_var_u32(u >> 7)
    }
}

/// The bytes that encode `v` as a VarInt.
pub open spec fn encode_var_int(v: i32) -> Seq<u8> {
    encode_var_u32(v as u32)
}

/// Reading a VarInt that starts at `start`, with `i` bytes already taken and `acc` their bits.
pub open spec fn decode_var_int_from(s: Seq<u8>, start: int, i: nat, acc: u32) -> Result<(i32, int), ReadingError>
    decreases 5 - i,
{
    if i >= 5 {
        Err(ReadingError::TooLarge)
    } else if start < 0 || start + i >= s.len() {
        Err(ReadingError::EndOfInput)
    } else {
        let b = s[start + i];
        let acc2 = acc | (((b & 0x7f) as u32) << ((7 * i) as u32));
        if b & 0x80 == 0 {
            Ok((acc2 as i32, start + i + 1))
        } else {
            decode_var_int_from(s, start, i + 1, acc2)
        }
    }
}

/// The VarInt that starts at `start` in `s`, and the position after it.
pub open spec fn decode_var_int(s: Seq<u8>, start: int) -> Result<(i32, int), ReadingError> {
    decode_var_int_from(s, start, 0, 0)
}

/// A read result with its end position taken as an integer.
pub open spec fn at_int<T>(r: Result<(T, usize), ReadingError>) -> Result<(T, int), ReadingError> {
    match r {
        Ok((v, p)) => Ok((v, p as int)),
        Err(e) => Err(e),
    }
}

/// Reads the VarInt that starts at `start`; returns it and the position after it.
pub fn read_var_int(bytes: &[u8], start: usize) -> (res: Result<(i32, usize), ReadingError>)
    ensures
        at_int(res) == decode_var_int(bytes@, start as int),
{
    let mut acc: u32 = 0;
    let mut i: usize = 0;
    while i < VAR_INT_MAX_SIZE
        invariant
            i <= 5,
            decode_var_int_from(bytes@, start as int, i as nat, acc) == decode_var_int(bytes@, start as int),
        decreases 5 - i,
    {
        if start >= bytes.len() || bytes.len() - start <= i {
            return Err(ReadingError::EndOfInput);
        }
        let b = bytes[start + i];
        let shift: u32 = (7 * i) as u32;
        acc = acc | (((b & 0x7f) as u32) << shift);
        if b & 0x80 == 0 {
            return Ok((acc as i32, start + i + 1));
        }
        i = i + 1;
    }
    Err(ReadingError::TooLarge)
}

/// Appends the VarInt encoding of `v` to `out`.
pub fn write_var_int(out: &mut Vec<u8>, v: i32)
    ensures
        final(out)@ == old(out)@ + encode_var_int(v),
{
    let mut u: u32 = v as u32;
    loop
        invariant
            old(out)@ + encode_var_int(v) == out@ + encode_var_u32(u),
        decreases u,
    {
        if u < 0x80 {
            out.push(u as u8);
            return;
        }
        let b: u8 = ((u & 0x7f) | 0x80) as u8;
        let ghost before = out@;
        out.push(b);
        assert(encode_var_u32(u) == seq![b] + encode_var_u32(u >> 7));
        assert(before + encode_var_u32(u) == out@ + encode_var_u32(u >> 7));
        assert(u >= 0x80 ==> u >> 7 < u) by (bit_vector);
        u = u >> 7;
    }
}

/// An encoding takes one to five bytes.
pub proof fn lemma_encode_var_u32_len(u: u32)
    ensures
        1 <= encode_var_u32(u).len() <= 5,
        u < 0x80 <==> encode_var_u32(u).len() == 1,
{
    reveal_with_fuel(encode_var_u32, 6);
    if u >= 0x80 {
        assert(u >= 0x80 ==> u >> 7 >> 7 >> 7 >> 7 >> 7 == 0) by (bit_vector);
        assert(u >= 0x80 ==> (u >> 7 < 0x80 || u >> 7 >> 7 < 0x80 || u >> 7 >> 7 >> 7 < 0x80 || u >> 7 >> 7 >> 7 >> 7 < 0x80)) by (bit_vector);
    }
}

proof fn lemma_decode_encode_from(s: Seq<u8>, start: int, i: u32, acc: u32, u: u32)
    requires
        0 <= start,
        i < 5,
        acc >> (7 * i) == 0,
        (u << (7 * i)) >> (7 * i) == u,
        start + i + encode_var_u32(u).len() <= s.len(),
        s.subrange(start + i, start + i + encode_var_u32(u).len()) == encode_var_u32(u),
    ensures
        decode_var_int_from(s, start, i as nat, acc) == Ok::<(i32, int), ReadingError>(
            ((acc | (u << (7 * i))) as i32, start + i + encode_var_u32(u).len()),
        ),
    decreases u,
{
    let e = encode_var_u32(u);
    assert(s[start + i] == e[0]);
    let b = s[start + i];
    assert(((7 * i) as u32) == 7 * i);
    if u < 0x80 {
        assert(b == u as u8);
        assert(u < 0x80 ==> (u as u8) & 0x80 == 0) by (bit_vector);
        assert(u < 0x80 ==> (((u as u8) & 0x7f) as u32) == u) by (bit_vector);
    } else {
        let u2 = u >> 7;
        assert(b == ((u & 0x7f) | 0x80) as u8);
        assert(u >= 0x80 ==> (((u & 0x7f) | 0x80) as u8) & 0x80 != 0) by (bit_vector);
        assert(u >= 0x80 ==> (((((u & 0x7f) | 0x80) as u8) & 0x7f) as u32) == u & 0x7f) by (bit_vector);
        assert(i <= 3) by (bit_vector)
            requires
                u >= 0x80,
                i < 5,
                (u << (7 * i)) >> (7 * i) == u,
        ;
        let acc2 = acc | ((u & 0x7f) << (7 * i));
        assert(acc2 >> (7 * (i + 1)) == 0) by (bit_vector)
            requires
                acc >> (7 * i) == 0,
                i <= 3,
                acc2 == acc | ((u & 0x7f) << (7 * i)),
        ;
        assert((u2 << (7 * (i + 1))) >> (7 * (i + 1)) == u2) by (bit_vector)
            requires
                i <= 3,
                (u << (7 * i)) >> (7 * i) == u,
                u2 == u >> 7,
        ;
        assert(e == seq![b] + encode_var_u32(u2));
        assert(s.subrange(start + (i + 1), start + (i + 1) + encode_var_u32(u2).len()) =~= encode_var_u32(u2)) by {
            assert forall|k: int| 0 <= k < encode_var_u32(u2).len() implies
                s.subrange(start + (i + 1), start + (i + 1) + encode_var_u32(u2).len())[k] == encode_var_u32(u2)[k] by {
                assert(s[start + i + 1 + k] == e[k + 1]);
            }
        }
        assert(u >= 0x80 ==> u >> 7 < u) by (bit_vector);
        lemma_decode_encode_from(s, start, (i + 1) as u32, acc2, u2);
        assert((acc2 | (u2 << (7 * (i + 1)))) == (acc | (u << (7 * i)))) by (bit_vector)
            requires
                i <= 3,
                acc2 == acc | ((u & 0x7f) << (7 * i)),
                u2 == u >> 7,
        ;
        assert(((7 * (i + 1)) as u32) == 7 * (i + 1));
        assert((i + 1) as nat == i as nat + 1);
    }
}

/// Reading back the encoding of `v` gives `v` and stops right after the encoding,
/// whatever precedes or follows it.
pub proof fn lemma_var_int_roundtrip(prefix: Seq<u8>, v: i32, rest: Seq<u8>)
    ensures
        decode_var_int(prefix + encode_var_int(v) + rest, prefix.len() as int) == Ok::<(i32, int), ReadingError>(
            (v, (prefix.len() + encode_var_int(v).len()) as int),
        ),
{
    let e = encode_var_int(v);
    let s = prefix + e + rest;
    let start = prefix.len() as int;
    assert(s.subrange(start, start + e.len()) =~= e);
    let u = v as u32;
    assert(0u32 >> (7 * 0u32) == 0) by (bit_vector);
    assert((u << (7 * 0u32)) >> (7 * 0u32) == u) by (bit_vector);
    lemma_decode_encode_from(s, start, 0, 0, u);
    assert(((0u32 | ((v as u32) << (7 * 0u32))) as i32) == v) by (bit_vector);
}

} // verus!
