use crate::error::{ReadingError, WritingError};
use crate::var_int::{VarInt, at_int, decode_var_int, encode_var_int, lemma_var_int_roundtrip, read_var_int, write_var_int};
use vstd::prelude::*;
use vstd::utf8::*;
use vstd::string::*;

verus! {

broadcast use vstd::utf8::encode_utf8_valid_utf8, vstd::utf8::encode_utf8_decode_utf8;

/// The longest string, in bytes, that may be read or written.
pub const MAX_STRING_LENGTH: usize = 32767;

/// The byte at `p`.
pub open spec fn read_u8_at(s: Seq<u8>, p: int) -> Result<(u8, int), ReadingError> {
    if 0 <= p < s.len() {
        Ok((s[p], p + 1))
    } else {
        Err(ReadingError::EndOfInput)
    }
}

/// A boolean is one byte; any byte but zero reads as `true`.
pub open spec fn read_bool_at(s: Seq<u8>, p: int) -> Result<(bool, int), ReadingError> {
    match read_u8_at(s, p) {
        Ok((b, q)) => Ok((b != 0, q)),
        Err(e) => Err(e),
    }
}

/// The unsigned big-endian value of the four bytes at `p`.
pub open spec fn be_u32_at(s: Seq<u8>, p: int) -> u32 {
    ((s[p] as u32) << 24u32) | ((s[p + 1] as u32) << 16u32) | ((s[p + 2] as u32) << 8u32) | (s[p + 3] as u32)
}

/// A 32-bit signed integer is four bytes, big-endian.
pub open spec fn read_i32_at(s: Seq<u8>, p: int) -> Result<(i32, int), ReadingError> {
    if 0 <= p && p + 4 <= s.len() {
        Ok((be_u32_at(s, p) as i32, p + 4))
    } else {
        Err(ReadingError::EndOfInput)
    }
}

/// A string is a VarInt byte length, at most `MAX_STRING_LENGTH`, then that many bytes of UTF-8.
pub open spec fn read_string_at(s: Seq<u8>, p: int) -> Result<(Seq<char>, int), ReadingError> {
    match decode_var_int(s, p) {
        Err(e) => Err(e),
        Ok((n, q)) => if n < 0 || n > MAX_STRING_LENGTH {
            Err(ReadingError::TooLarge)
        } else if q + n > s.len() {
            Err(ReadingError::EndOfInput)
        } else if !valid_utf8(s.subrange(q, q + n)) {
            Err(ReadingError::Invalid)
        } else {
            Ok((decode_utf8(s.subrange(q, q + n)), q + n))
        },
    }
}

/// The next element of a byte sequence read element by element: none is left once the
/// position reaches the end, otherwise it is what `r` read there.
pub open spec fn element<T>(s: Seq<u8>, p: int, r: Result<(T, int), ReadingError>) -> Result<(T, int), ReadingError> {
    if p >= s.len() {
        Err(ReadingError::Missing)
    } else {
        r
    }
}

/// The four big-endian bytes of `v`.
pub open spec fn encode_i32(v: i32) -> Seq<u8> {
    let u = v as u32;
    seq![(u >> 24u32) as u8, (u >> 16u32) as u8, (u >> 8u32) as u8, u as u8]
}

/// The byte of a boolean: 1 for `true`, 0 for `false`.
pub open spec fn encode_bool(b: bool) -> Seq<u8> {
    seq![if b { 1u8 } else { 0u8 }]
}

/// The bytes of a string: its UTF-8 length as a VarInt, then its UTF-8 bytes.
pub open spec fn encode_string(chars: Seq<char>) -> Seq<u8> {
    encode_var_int(encode_utf8(chars).len() as i32) + encode_utf8(chars)
}

/// A string can be written when its UTF-8 form is at most `MAX_STRING_LENGTH` bytes.
pub open spec fn string_fits(chars: Seq<char>) -> bool {
    encode_utf8(chars).len() <= MAX_STRING_LENGTH
}

/// The text that `bytes` hold, or `None` where they are not UTF-8.
#[verifier::external_body]
fn str_from_utf8(bytes: &[u8]) -> (r: Option<&str>)
    ensures
        r is Some <==> valid_utf8(bytes@),
        r matches Some(t) ==> t@ == decode_utf8(bytes@),
{
    match std::str::from_utf8(bytes) {
        Ok(t) => Some(t),
        Err(_) => None,
    }
}

/// Reads the byte at `p`.
pub fn read_u8(bytes: &[u8], p: usize) -> (res: Result<(u8, usize), ReadingError>)
    ensures
        at_int(res) == read_u8_at(bytes@, p as int),
{
    if p < bytes.len() {
        Ok((bytes[p], p + 1))
    } else {
        Err(ReadingError::EndOfInput)
    }
}

/// Reads the boolean at `p`.
pub fn read_bool(bytes: &[u8], p: usize) -> (res: Result<(bool, usize), ReadingError>)
    ensures
        at_int(res) == read_bool_at(bytes@, p as int),
{
    match read_u8(bytes, p) {
        Ok((b, q)) => Ok((b != 0, q)),
        Err(e) => Err(e),
    }
}

/// Reads the big-endian `i32` at `p`.
pub fn read_i32(bytes: &[u8], p: usize) -> (res: Result<(i32, usize), ReadingError>)
    ensures
        at_int(res) == read_i32_at(bytes@, p as int),
{
    if p <= bytes.len() && bytes.len() - p >= 4 {
        let u: u32 = ((bytes[p] as u32) << 24u32) | ((bytes[p + 1] as u32) << 16u32) | ((bytes[p + 2] as u32) << 8u32)
            | (bytes[p + 3] as u32);
        Ok((u as i32, p + 4))
    } else {
        Err(ReadingError::EndOfInput)
    }
}

/// Reads the length-prefixed UTF-8 string at `p`.
pub fn read_string(bytes: &[u8], p: usize) -> (res: Result<(String, usize), ReadingError>)
    ensures
        match (res, read_string_at(bytes@, p as int)) {
            (Ok((t, q)), Ok((chars, r))) => t@ == chars && q == r,
            (Err(e), Err(f)) => e == f,
            _ => false,
        },
{
    let (n, q) = match read_var_int(bytes, p) {
        Ok(x) => x,
        Err(e) => return Err(e),
    };
    if n < 0 || n as usize > MAX_STRING_LENGTH {
        return Err(ReadingError::TooLarge);
    }
    let n = n as usize;
    if q > bytes.len() || bytes.len() - q < n {
        return Err(ReadingError::EndOfInput);
    }
    let window = slice_subrange(bytes, q, q + n);
    match str_from_utf8(window) {
        Some(t) => Ok((t.to_owned(), q + n)),
        None => Err(ReadingError::Invalid),
    }
}

/// The bytes of `bytes` from `start` up to `end`.
pub fn slice_subrange(bytes: &[u8], start: usize, end: usize) -> (r: &[u8])
    requires
        start <= end <= bytes@.len(),
    ensures
        r@ == bytes@.subrange(start as int, end as int),
{
    vstd::slice::slice_subrange(bytes, start, end)
}

/// Reads the next VarInt element: `Missing` at the end of the bytes.
pub fn next_var_int(bytes: &[u8], p: usize) -> (res: Result<(i32, usize), ReadingError>)
    ensures
        at_int(res) == element(bytes@, p as int, decode_var_int(bytes@, p as int)),
{
    if p >= bytes.len() {
        Err(ReadingError::Missing)
    } else {
        read_var_int(bytes, p)
    }
}

/// Reads the next boolean element: `Missing` at the end of the bytes.
pub fn next_bool(bytes: &[u8], p: usize) -> (res: Result<(bool, usize), ReadingError>)
    ensures
        at_int(res) == element(bytes@, p as int, read_bool_at(bytes@, p as int)),
{
    if p >= bytes.len() {
        Err(ReadingError::Missing)
    } else {
        read_bool(bytes, p)
    }
}

/// Reads the next `i32` element: `Missing` at the end of the bytes.
pub fn next_i32(bytes: &[u8], p: usize) -> (res: Result<(i32, usize), ReadingError>)
    ensures
        at_int(res) == element(bytes@, p as int, read_i32_at(bytes@, p as int)),
{
    if p >= bytes.len() {
        Err(ReadingError::Missing)
    } else {
        read_i32(bytes, p)
    }
}

/// Reads the next string element: `Missing` at the end of the bytes.
pub fn next_string(bytes: &[u8], p: usize) -> (res: Result<(String, usize), ReadingError>)
    ensures
        match (res, element(bytes@, p as int, read_string_at(bytes@, p as int))) {
            (Ok((t, q)), Ok((chars, r))) => t@ == chars && q == r,
            (Err(e), Err(f)) => e == f,
            _ => false,
        },
{
    if p >= bytes.len() {
        Err(ReadingError::Missing)
    } else {
        read_string(bytes, p)
    }
}

/// A successful VarInt read moves forward and stays within the bytes.
pub proof fn lemma_var_int_advances(s: Seq<u8>, p: int)
    ensures
        decode_var_int(s, p) matches Ok((v, q)) ==> p < q <= s.len() && q <= p + 5,
{
    reveal_with_fuel(crate::var_int::decode_var_int_from, 6);
}

/// Appends a boolean.
pub fn write_bool(out: &mut Vec<u8>, b: bool)
    ensures
        final(out)@ == old(out)@ + encode_bool(b),
{
    out.push(if b { 1u8 } else { 0u8 });
    assert(final(out)@ =~= old(out)@ + encode_bool(b));
}

/// Appends a big-endian `i32`.
pub fn write_i32(out: &mut Vec<u8>, v: i32)
    ensures
        final(out)@ == old(out)@ + encode_i32(v),
{
    let u = v as u32;
    out.push((u >> 24u32) as u8);
    out.push((u >> 16u32) as u8);
    out.push((u >> 8u32) as u8);
    out.push(u as u8);
    assert(final(out)@ =~= old(out)@ + encode_i32(v));
}

/// Appends all of `bytes`.
pub fn write_bytes(out: &mut Vec<u8>, bytes: &[u8])
    ensures
        final(out)@ == old(out)@ + bytes@,
{
    let mut i: usize = 0;
    while i < bytes.len()
        invariant
            i <= bytes@.len(),
            out@ == old(out)@ + bytes@.subrange(0, i as int),
        decreases bytes@.len() - i,
    {
        out.push(bytes[i]);
        assert(bytes@.subrange(0, i + 1) =~= bytes@.subrange(0, i as int).push(bytes@[i as int]));
        i = i + 1;
    }
    assert(bytes@.subrange(0, bytes@.len() as int) =~= bytes@);
}

/// Appends a length-prefixed UTF-8 string; a string over `MAX_STRING_LENGTH` bytes is refused.
pub fn write_string(out: &mut Vec<u8>, t: &str) -> (res: Result<(), WritingError>)
    ensures
        res is Ok <==> string_fits(t@),
        res is Ok ==> final(out)@ == old(out)@ + encode_string(t@),
        res is Err ==> final(out)@ == old(out)@,
{
    let bytes = t.as_bytes();
    if bytes.len() > MAX_STRING_LENGTH {
        return Err(WritingError::TooLarge);
    }
    write_var_int(out, bytes.len() as i32);
    write_bytes(out, bytes);
    assert(final(out)@ =~= old(out)@ + encode_string(t@));
    Ok(())
}

/// Reading back a written `i32` gives it again.
pub proof fn lemma_i32_roundtrip(prefix: Seq<u8>, v: i32, rest: Seq<u8>)
    ensures
        read_i32_at(prefix + encode_i32(v) + rest, prefix.len() as int) == Ok::<(i32, int), ReadingError>(
            (v, prefix.len() + 4int),
        ),
{
    let s = prefix + encode_i32(v) + rest;
    let p = prefix.len() as int;
    let u = v as u32;
    assert(s[p] == (u >> 24u32) as u8);
    assert(s[p + 1] == (u >> 16u32) as u8);
    assert(s[p + 2] == (u >> 8u32) as u8);
    assert(s[p + 3] == u as u8);
    assert((((((u >> 24u32) as u8) as u32) << 24u32) | ((((u >> 16u32) as u8) as u32) << 16u32) | ((((u
        >> 8u32) as u8) as u32) << 8u32) | ((u as u8) as u32)) == u) by (bit_vector);
    assert((u as i32) == v) by (bit_vector)
        requires
            u == v as u32,
    ;
}

/// Reading back a written boolean gives it again.
pub proof fn lemma_bool_roundtrip(prefix: Seq<u8>, b: bool, rest: Seq<u8>)
    ensures
        read_bool_at(prefix + encode_bool(b) + rest, prefix.len() as int) == Ok::<(bool, int), ReadingError>(
            (b, prefix.len() + 1int),
        ),
{
    let s = prefix + encode_bool(b) + rest;
    assert(s[prefix.len() as int] == encode_bool(b)[0]);
}

/// Reading back a written string gives it again.
pub proof fn lemma_string_roundtrip(prefix: Seq<u8>, chars: Seq<char>, rest: Seq<u8>)
    requires
        string_fits(chars),
    ensures
        read_string_at(prefix + encode_string(chars) + rest, prefix.len() as int) == Ok::<(Seq<char>, int), ReadingError>(
            (chars, (prefix.len() + encode_string(chars).len()) as int),
        ),
{
    let b = encode_utf8(chars);
    let n = b.len() as i32;
    let s = prefix + encode_string(chars) + rest;
    assert(s == prefix + encode_var_int(n) + (b + rest));
    lemma_var_int_roundtrip(prefix, n, b + rest);
    let q = (prefix.len() + encode_var_int(n).len()) as int;
    assert(s.subrange(q, q + n) =~= b);
}

/// The unsigned big-endian value of the `n` bytes at `p`.
pub open spec fn be_at(s: Seq<u8>, p: int, n: nat) -> nat
    decreases n,
{
    if n == 0 {
        0
    } else {
        be_at(s, p, (n - 1) as nat) * 256 + s[p + n - 1] as nat
    }
}

/// 256 to the power `n`.
pub open spec fn pow256(n: nat) -> nat
    decreases n,
{
    if n == 0 {
        1
    } else {
        pow256((n - 1) as nat) * 256
    }
}

/// The `n` bytes at `p` as an unsigned big-endian number.
pub open spec fn read_be_at(s: Seq<u8>, p: int, n: nat) -> Result<(nat, int), ReadingError> {
    if 0 <= p && p + n <= s.len() {
        Ok((be_at(s, p, n), p + n))
    } else {
        Err(ReadingError::EndOfInput)
    }
}

proof fn lemma_be_at_bound(s: Seq<u8>, p: int, n: nat)
    ensures
        be_at(s, p, n) < pow256(n),
    decreases n,
{
    if n > 0 {
        lemma_be_at_bound(s, p, (n - 1) as nat);
        let x = be_at(s, p, (n - 1) as nat);
        let b = s[p + n - 1] as nat;
        let m = pow256((n - 1) as nat);
        assert(x * 256 + b < m * 256) by (nonlinear_arith)
            requires
                x < m,
                b < 256,
        ;
    }
}

proof fn lemma_pow256_mono(a: nat, b: nat)
    requires
        a <= b,
    ensures
        pow256(a) <= pow256(b),
    decreases b,
{
    if a < b {
        lemma_pow256_mono(a, (b - 1) as nat);
    }
}

/// Reads `n` (at most 8) bytes at `p` as an unsigned big-endian number.
pub fn read_be(bytes: &[u8], p: usize, n: usize) -> (res: Result<(u64, usize), ReadingError>)
    requires
        n <= 8,
    ensures
        match res {
            Ok((v, q)) => read_be_at(bytes@, p as int, n as nat) == Ok::<(nat, int), ReadingError>((v as nat, q as int)),
            Err(e) => read_be_at(bytes@, p as int, n as nat) == Err::<(nat, int), ReadingError>(e),
        },
{
    if p > bytes.len() || bytes.len() - p < n {
        return Err(ReadingError::EndOfInput);
    }
    let mut acc: u64 = 0;
    let mut k: usize = 0;
    assert(pow256(8) == 0x1_0000_0000_0000_0000) by {
        reveal_with_fuel(pow256, 9);
    }
    while k < n
        invariant
            k <= n <= 8,
            p + n <= bytes.len(),
            pow256(8) == 0x1_0000_0000_0000_0000,
            acc as nat == be_at(bytes@, p as int, k as nat),
        decreases n - k,
    {
        proof {
            lemma_be_at_bound(bytes@, p as int, (k + 1) as nat);
            lemma_pow256_mono((k + 1) as nat, 8);
            assert(be_at(bytes@, p as int, (k + 1) as nat) == acc * 256 + bytes@[p + k] as nat);
        }
        acc = acc * 256 + bytes[p + k] as u64;
        k = k + 1;
    }
    proof {
        lemma_be_at_bound(bytes@, p as int, n as nat);
    }
    Ok((acc, p + n))
}

/// The `n`-byte value at `p` fits in `n` bytes.
pub proof fn lemma_read_be_bound(s: Seq<u8>, p: int, n: nat)
    ensures
        read_be_at(s, p, n) matches Ok((v, q)) ==> v < pow256(n),
{
    lemma_be_at_bound(s, p, n);
}

/// The char with scalar value `v`, where `v` is one.
#[verifier::external_body]
fn char_from_u32(v: u32) -> (r: Option<char>)
    ensures
        r == (if is_scalar(v) {
            Some(v as char)
        } else {
            None::<char>
        }),
{
    char::from_u32(v)
}

/// A length-prefixed byte buffer: a VarInt length, then that many bytes. A negative
/// length is `Invalid`.
pub open spec fn read_byte_buf_at(s: Seq<u8>, p: int) -> Result<(Seq<u8>, int), ReadingError> {
    match decode_var_int(s, p) {
        Err(e) => Err(e),
        Ok((n, q)) => if n < 0 {
            Err(ReadingError::Invalid)
        } else if q + n > s.len() {
            Err(ReadingError::EndOfInput)
        } else {
            Ok((s.subrange(q, q + n), q + n))
        },
    }
}

/// A reader over an owned byte buffer that keeps its position.
pub struct Deserializer {
    pub data: Vec<u8>,
    pub pos: usize,
}

/// How one read moves a deserializer from `d0` to `d1`: on success it returns the value
/// that `expected` names and moves to the position after it; on failure it stays put.
pub open spec fn read_step<T>(d0: Deserializer, d1: Deserializer, res: Result<T, ReadingError>, expected: Result<(T, int), ReadingError>) -> bool {
    &&& d1.data@ == d0.data@
    &&& match expected {
        Ok((v, p)) => res == Ok::<T, ReadingError>(v) && d1.pos == p,
        Err(e) => res == Err::<T, ReadingError>(e) && d1.pos == d0.pos,
    }
}

impl Deserializer {
    /// A reader at the start of `data`.
    pub fn new(data: Vec<u8>) -> (r: Self)
        ensures
            r.data@ == data@,
            r.pos == 0,
    {
        Deserializer { data, pos: 0 }
    }

    /// How many bytes have been read.
    pub fn bytes_read(&self) -> (r: usize)
        ensures
            r == self.pos,
    {
        self.pos
    }

    /// Reads one byte.
    pub fn get_u8(&mut self) -> (res: Result<u8, ReadingError>)
        ensures
            read_step(*old(self), *final(self), res, read_u8_at(old(self).data@, old(self).pos as int)),
    {
        match read_u8(self.data.as_slice(), self.pos) {
            Ok((v, q)) => {
                self.pos = q;
                Ok(v)
            },
            Err(e) => Err(e),
        }
    }

    /// Reads one byte as a signed value.
    pub fn get_i8(&mut self) -> (res: Result<i8, ReadingError>)
        ensures
            read_step(
                *old(self),
                *final(self),
                res,
                match read_u8_at(old(self).data@, old(self).pos as int) {
                    Ok((b, q)) => Ok((b as i8, q)),
                    Err(e) => Err(e),
                },
            ),
    {
        match read_u8(self.data.as_slice(), self.pos) {
            Ok((v, q)) => {
                self.pos = q;
                Ok(v as i8)
            },
            Err(e) => Err(e),
        }
    }

    /// Reads a boolean.
    pub fn get_bool(&mut self) -> (res: Result<bool, ReadingError>)
        ensures
            read_step(*old(self), *final(self), res, read_bool_at(old(self).data@, old(self).pos as int)),
    {
        match read_bool(self.data.as_slice(), self.pos) {
            Ok((v, q)) => {
                self.pos = q;
                Ok(v)
            },
            Err(e) => Err(e),
        }
    }

    /// Reads a big-endian `i32`.
    pub fn get_i32_be(&mut self) -> (res: Result<i32, ReadingError>)
        ensures
            read_step(*old(self), *final(self), res, read_i32_at(old(self).data@, old(self).pos as int)),
    {
        match read_i32(self.data.as_slice(), self.pos) {
            Ok((v, q)) => {
                self.pos = q;
                Ok(v)
            },
            Err(e) => Err(e),
        }
    }

    /// Reads a VarInt.
    pub fn get_var_int(&mut self) -> (res: Result<VarInt, ReadingError>)
        ensures
            read_step(
                *old(self),
                *final(self),
                res,
                match decode_var_int(old(self).data@, old(self).pos as int) {
                    Ok((v, q)) => Ok((VarInt(v), q)),
                    Err(e) => Err(e),
                },
            ),
    {
        match read_var_int(self.data.as_slice(), self.pos) {
            Ok((v, q)) => {
                self.pos = q;
                Ok(VarInt(v))
            },
            Err(e) => Err(e),
        }
    }

    /// Reads a length-prefixed UTF-8 string.
    pub fn get_string(&mut self) -> (res: Result<String, ReadingError>)
        ensures
            final(self).data@ == old(self).data@,
            match (res, read_string_at(old(self).data@, old(self).pos as int)) {
                (Ok(t), Ok((chars, q))) => t@ == chars && final(self).pos == q,
                (Err(e), Err(f)) => e == f && final(self).pos == old(self).pos,
                _ => false,
            },
    {
        match read_string(self.data.as_slice(), self.pos) {
            Ok((t, q)) => {
                self.pos = q;
                Ok(t)
            },
            Err(e) => Err(e),
        }
    }

    /// Reads a big-endian `u16`.
    pub fn get_u16_be(&mut self) -> (res: Result<u16, ReadingError>)
        ensures
            read_step(
                *old(self),
                *final(self),
                res,
                match read_be_at(old(self).data@, old(self).pos as int, 2) {
                    Ok((v, q)) => Ok((v as u16, q)),
                    Err(e) => Err(e),
                },
            ),
    {
        proof {
            lemma_read_be_bound(self.data@, self.pos as int, 2);
            reveal_with_fuel(pow256, 3);
        }
        match read_be(self.data.as_slice(), self.pos, 2) {
            Ok((v, q)) => {
                self.pos = q;
                Ok(v as u16)
            },
            Err(e) => Err(e),
        }
    }

    /// Reads a big-endian `i16`.
    pub fn get_i16_be(&mut self) -> (res: Result<i16, ReadingError>)
        ensures
            read_step(
                *old(self),
                *final(self),
                res,
                match read_be_at(old(self).data@, old(self).pos as int, 2) {
                    Ok((v, q)) => Ok(((v as u16) as i16, q)),
                    Err(e) => Err(e),
                },
            ),
    {
        match self.get_u16_be() {
            Ok(v) => Ok(v as i16),
            Err(e) => Err(e),
        }
    }

    /// Reads a big-endian `u32`.
    pub fn get_u32_be(&mut self) -> (res: Result<u32, ReadingError>)
        ensures
            read_step(
                *old(self),
                *final(self),
                res,
                match read_be_at(old(self).data@, old(self).pos as int, 4) {
                    Ok((v, q)) => Ok((v as u32, q)),
                    Err(e) => Err(e),
                },
            ),
    {
        proof {
            lemma_read_be_bound(self.data@, self.pos as int, 4);
            reveal_with_fuel(pow256, 5);
        }
        match read_be(self.data.as_slice(), self.pos, 4) {
            Ok((v, q)) => {
                self.pos = q;
                Ok(v as u32)
            },
            Err(e) => Err(e),
        }
    }

    /// Reads a big-endian `u64`.
    pub fn get_u64_be(&mut self) -> (res: Result<u64, ReadingError>)
        ensures
            read_step(
                *old(self),
                *final(self),
                res,
                match read_be_at(old(self).data@, old(self).pos as int, 8) {
                    Ok((v, q)) => Ok((v as u64, q)),
                    Err(e) => Err(e),
                },
            ),
    {
        match read_be(self.data.as_slice(), self.pos, 8) {
            Ok((v, q)) => {
                self.pos = q;
                Ok(v)
            },
            Err(e) => Err(e),
        }
    }

    /// Reads a big-endian `i64`.
    pub fn get_i64_be(&mut self) -> (res: Result<i64, ReadingError>)
        ensures
            read_step(
                *old(self),
                *final(self),
                res,
                match read_be_at(old(self).data@, old(self).pos as int, 8) {
                    Ok((v, q)) => Ok(((v as u64) as i64, q)),
                    Err(e) => Err(e),
                },
            ),
    {
        match self.get_u64_be() {
            Ok(v) => Ok(v as i64),
            Err(e) => Err(e),
        }
    }

    /// Reads a char sent as a big-endian `u32`; a value that is no Unicode scalar is
    /// `Invalid`, and the position then stays.
    pub fn get_char(&mut self) -> (res: Result<char, ReadingError>)
        ensures
            final(self).data@ == old(self).data@,
            match read_be_at(old(self).data@, old(self).pos as int, 4) {
                Ok((v, q)) => if is_scalar(v as u32) {
                    res == Ok::<char, ReadingError>((v as u32) as char) && final(self).pos == q
                } else {
                    res == Err::<char, ReadingError>(ReadingError::Invalid) && final(self).pos == old(self).pos
                },
                Err(e) => res == Err::<char, ReadingError>(e) && final(self).pos == old(self).pos,
            },
    {
        let start = self.pos;
        match self.get_u32_be() {
            Ok(v) => match char_from_u32(v) {
                Some(c) => Ok(c),
                None => {
                    self.pos = start;
                    Err(ReadingError::Invalid)
                },
            },
            Err(e) => Err(e),
        }
    }

    /// Reads a length-prefixed byte buffer.
    pub fn get_byte_buf(&mut self) -> (res: Result<Vec<u8>, ReadingError>)
        ensures
            final(self).data@ == old(self).data@,
            match read_byte_buf_at(old(self).data@, old(self).pos as int) {
                Ok((b, q)) => res matches Ok(v) && v@ == b && final(self).pos == q,
                Err(e) => res == Err::<Vec<u8>, ReadingError>(e) && final(self).pos == old(self).pos,
            },
    {
        let (n, q) = match read_var_int(self.data.as_slice(), self.pos) {
            Ok(x) => x,
            Err(e) => return Err(e),
        };
        if n < 0 {
            return Err(ReadingError::Invalid);
        }
        let n = n as usize;
        if q > self.data.len() || self.data.len() - q < n {
            return Err(ReadingError::EndOfInput);
        }
        let window = slice_subrange(self.data.as_slice(), q, q + n);
        let buf = vstd::slice::slice_to_vec(window);
        self.pos = q + n;
        Ok(buf)
    }

    /// Reads the entry count of a map: a VarInt reinterpreted as `usize` (a negative
    /// count wraps to a huge one).
    pub fn get_map_len(&mut self) -> (res: Result<usize, ReadingError>)
        ensures
            read_step(
                *old(self),
                *final(self),
                res,
                match decode_var_int(old(self).data@, old(self).pos as int) {
                    Ok((v, q)) => Ok((v as usize, q)),
                    Err(e) => Err(e),
                },
            ),
    {
        match read_var_int(self.data.as_slice(), self.pos) {
            Ok((v, q)) => {
                self.pos = q;
                Ok(v as usize)
            },
            Err(e) => Err(e),
        }
    }

    /// Reads a VarInt variant index, which must not be negative.
    pub fn get_variant_index(&mut self) -> (res: Result<u32, ReadingError>)
        ensures
            read_step(
                *old(self),
                *final(self),
                res,
                match decode_var_int(old(self).data@, old(self).pos as int) {
                    Ok((v, q)) => if v < 0 {
                        Err(ReadingError::Invalid)
                    } else {
                        Ok((v as u32, q))
                    },
                    Err(e) => Err(e),
                },
            ),
    {
        match read_var_int(self.data.as_slice(), self.pos) {
            Ok((v, q)) => {
                if v < 0 {
                    return Err(ReadingError::Invalid);
                }
                self.pos = q;
                Ok(v as u32)
            },
            Err(e) => Err(e),
        }
    }
}

} // verus!
