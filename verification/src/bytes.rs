//! Fixed-width integers as bytes, most significant byte first, and the
//! two's-complement reading of unsigned values.
//!
//! Every specification here is plain integer arithmetic: dividing a signed
//! integer by a power of 256 rounds towards minus infinity and the remainder
//! is never negative, so `be32(-1)` is four `0xFF` bytes without any special
//! case for the sign.

use vstd::prelude::*;

verus! {

/// Two bytes, big-endian.
pub open spec fn be16(v: int) -> Seq<u8> {
    seq![((v / 0x100) % 0x100) as u8, (v % 0x100) as u8]
}

/// Four bytes, big-endian.
pub open spec fn be32(v: int) -> Seq<u8> {
    seq![
        ((v / 0x100_0000) % 0x100) as u8,
        ((v / 0x1_0000) % 0x100) as u8,
        ((v / 0x100) % 0x100) as u8,
        (v % 0x100) as u8,
    ]
}

/// Eight bytes, big-endian.
pub open spec fn be64(v: int) -> Seq<u8> {
    be32(v / 0x1_0000_0000) + be32(v % 0x1_0000_0000)
}

/// Sixteen bytes, big-endian.
pub open spec fn be128(v: int) -> Seq<u8> {
    be64(v / 0x1_0000_0000_0000_0000) + be64(v % 0x1_0000_0000_0000_0000)
}

/// Eight bytes, little-endian.
pub open spec fn le64(v: int) -> Seq<u8> {
    be64(v).reverse()
}

/// The unsigned number that the two bytes at `pos` spell, big-endian.
pub open spec fn be16_at(bytes: Seq<u8>, pos: int) -> int {
    bytes[pos] * 0x100 + bytes[pos + 1]
}

/// The unsigned number that the four bytes at `pos` spell, big-endian.
pub open spec fn be32_at(bytes: Seq<u8>, pos: int) -> int {
    bytes[pos] * 0x100_0000 + bytes[pos + 1] * 0x1_0000 + bytes[pos + 2] * 0x100 + bytes[pos + 3]
}

/// The unsigned number that the eight bytes at `pos` spell, big-endian.
pub open spec fn be64_at(bytes: Seq<u8>, pos: int) -> int {
    be32_at(bytes, pos) * 0x1_0000_0000 + be32_at(bytes, pos + 4)
}

/// The unsigned number that the sixteen bytes at `pos` spell, big-endian.
pub open spec fn be128_at(bytes: Seq<u8>, pos: int) -> int {
    be64_at(bytes, pos) * 0x1_0000_0000_0000_0000 + be64_at(bytes, pos + 8)
}

/// The unsigned number that the eight bytes at `pos` spell, little-endian.
pub open spec fn le64_at(bytes: Seq<u8>, pos: int) -> int {
    be64_at(bytes.subrange(pos, pos + 8).reverse(), 0)
}

/// The two's-complement reading of `u` in a word of `modulus` values.
pub open spec fn signed_of(u: int, modulus: int) -> int {
    if 2 * u >= modulus {
        u - modulus
    } else {
        u
    }
}

/// The unsigned word that stands for `v` in two's complement.
pub open spec fn unsigned_of(v: int, modulus: int) -> int {
    v % modulus
}

/// `bytes` holds `part` at `pos`.
pub open spec fn holds_at(bytes: Seq<u8>, pos: int, part: Seq<u8>) -> bool {
    &&& 0 <= pos
    &&& pos + part.len() <= bytes.len()
    &&& bytes.subrange(pos, pos + part.len()) == part
}

/// Reading back what `be16` wrote gives the 16-bit word of the number.
pub proof fn lemma_be16_at(bytes: Seq<u8>, pos: int, v: int)
    requires
        holds_at(bytes, pos, be16(v)),
    ensures
        be16_at(bytes, pos) == v % 0x1_0000,
{
    let s = bytes.subrange(pos, pos + 2);
    assert(s[0] == bytes[pos] && s[1] == bytes[pos + 1]);
    let q1 = v / 0x100;
    assert(v == 0x1_0000 * (q1 / 0x100) + (0x100 * (q1 % 0x100) + v % 0x100));
}

/// A concatenation that `bytes` holds at `pos` has its first part at `pos`
/// and its second part right behind it, and the other way round.
pub proof fn lemma_holds_concat(bytes: Seq<u8>, pos: int, a: Seq<u8>, b: Seq<u8>)
    ensures
        holds_at(bytes, pos, a + b) <==> holds_at(bytes, pos, a) && holds_at(
            bytes,
            pos + a.len(),
            b,
        ),
{
    let n = a.len() as int;
    let m = b.len() as int;
    if holds_at(bytes, pos, a + b) {
        assert(bytes.subrange(pos, pos + n) =~= bytes.subrange(pos, pos + n + m).subrange(0, n));
        assert((a + b).subrange(0, n) =~= a);
        assert(bytes.subrange(pos + n, pos + n + m) =~= bytes.subrange(pos, pos + n + m).subrange(
            n,
            n + m,
        ));
        assert((a + b).subrange(n, n + m) =~= b);
    }
    if holds_at(bytes, pos, a) && holds_at(bytes, pos + n, b) {
        assert(bytes.subrange(pos, pos + n + m) =~= bytes.subrange(pos, pos + n) + bytes.subrange(
            pos + n,
            pos + n + m,
        ));
    }
}

/// Where `bytes` holds `part` at `pos`, the first byte of `part` lies at
/// `pos`.
pub proof fn lemma_first_byte(bytes: Seq<u8>, pos: int, part: Seq<u8>)
    requires
        holds_at(bytes, pos, part),
        part.len() >= 1,
    ensures
        0 <= pos < bytes.len(),
        bytes[pos] == part[0],
{
    assert(bytes.subrange(pos, pos + part.len())[0] == bytes[pos]);
}

/// The widths of the fixed-width encodings.
pub proof fn lemma_be_len(v: int)
    ensures
        be16(v).len() == 2,
        be32(v).len() == 4,
        be64(v).len() == 8,
        be128(v).len() == 16,
        le64(v).len() == 8,
{
}

/// Reading back what `be128` wrote gives the 128-bit word of the number.
pub proof fn lemma_be128_at(bytes: Seq<u8>, pos: int, v: int)
    requires
        holds_at(bytes, pos, be128(v)),
    ensures
        be128_at(bytes, pos) == v % 0x1_0000_0000_0000_0000_0000_0000_0000_0000int,
{
    let hi = v / 0x1_0000_0000_0000_0000;
    let lo = v % 0x1_0000_0000_0000_0000;
    lemma_be_len(hi);
    lemma_holds_concat(bytes, pos, be64(hi), be64(lo));
    lemma_be64_at(bytes, pos, hi);
    lemma_be64_at(bytes, pos + 8, lo);
    lemma_join_words(v, 0x1_0000_0000_0000_0000);
}

/// The two halves of a double word, each taken modulo `m`, make up the
/// number modulo `m * m`.
proof fn lemma_join_words(v: int, m: int)
    requires
        m > 0,
    ensures
        ((v / m) % m) * m + (v % m) % m == v % (m * m),
{
    let hi = v / m;
    let lo = v % m;
    let h = hi % m;
    let q = hi / m;
    vstd::arithmetic::div_mod::lemma_fundamental_div_mod(v, m);
    vstd::arithmetic::div_mod::lemma_fundamental_div_mod(hi, m);
    vstd::arithmetic::div_mod::lemma_mod_bound(v, m);
    vstd::arithmetic::div_mod::lemma_mod_bound(hi, m);
    assert(m * m > 0) by (nonlinear_arith)
        requires
            m > 0,
    ;
    assert(v == (m * m) * q + (h * m + lo)) by (nonlinear_arith)
        requires
            v == m * hi + lo,
            hi == m * q + h,
    ;
    assert(0 <= h * m + lo < m * m) by (nonlinear_arith)
        requires
            0 <= h < m,
            0 <= lo < m,
    ;
    vstd::arithmetic::div_mod::lemma_fundamental_div_mod_converse(v, m * m, q, h * m + lo);
    vstd::arithmetic::div_mod::lemma_small_mod(lo as nat, m as nat);
}

/// Reading back what `be32` wrote gives the 32-bit word of the number.
pub proof fn lemma_be32_at(bytes: Seq<u8>, pos: int, v: int)
    requires
        holds_at(bytes, pos, be32(v)),
    ensures
        be32_at(bytes, pos) == v % 0x1_0000_0000,
{
    let s = bytes.subrange(pos, pos + 4);
    assert(s[0] == bytes[pos] && s[1] == bytes[pos + 1] && s[2] == bytes[pos + 2] && s[3]
        == bytes[pos + 3]);
    lemma_digits32(v);
}

/// The four base-256 digits of `v` make up `v` modulo `2^32`.
proof fn lemma_digits32(v: int)
    ensures
        ((v / 0x100_0000) % 0x100) * 0x100_0000 + ((v / 0x1_0000) % 0x100) * 0x1_0000 + ((v
            / 0x100) % 0x100) * 0x100 + v % 0x100 == v % 0x1_0000_0000,
{
    let q1 = v / 0x100;
    let q2 = q1 / 0x100;
    let q3 = q2 / 0x100;
    let q4 = q3 / 0x100;
    let d0 = v % 0x100;
    let d1 = q1 % 0x100;
    let d2 = q2 % 0x100;
    let d3 = q3 % 0x100;
    assert(v == 0x1_0000 * q2 + (0x100 * d1 + d0));
    assert(v / 0x1_0000 == q2);
    assert(v == 0x100_0000 * q3 + (0x1_0000 * d2 + 0x100 * d1 + d0));
    assert(v / 0x100_0000 == q3);
    assert(v == 0x1_0000_0000 * q4 + (0x100_0000 * d3 + 0x1_0000 * d2 + 0x100 * d1 + d0));
    assert(v % 0x1_0000_0000 == 0x100_0000 * d3 + 0x1_0000 * d2 + 0x100 * d1 + d0);
}

/// Reading back what `be64` wrote gives the 64-bit word of the number.
pub proof fn lemma_be64_at(bytes: Seq<u8>, pos: int, v: int)
    requires
        holds_at(bytes, pos, be64(v)),
    ensures
        be64_at(bytes, pos) == v % 0x1_0000_0000_0000_0000,
{
    let hi = v / 0x1_0000_0000;
    let lo = v % 0x1_0000_0000;
    lemma_be_len(hi);
    lemma_holds_concat(bytes, pos, be32(hi), be32(lo));
    lemma_be32_at(bytes, pos, hi);
    lemma_be32_at(bytes, pos + 4, lo);
    lemma_join_words(v, 0x1_0000_0000);
}

/// Reading back what `le64` wrote gives the 64-bit word of the number.
pub proof fn lemma_le64_at(bytes: Seq<u8>, pos: int, v: int)
    requires
        holds_at(bytes, pos, le64(v)),
    ensures
        le64_at(bytes, pos) == v % 0x1_0000_0000_0000_0000,
{
    lemma_be_len(v);
    let r = bytes.subrange(pos, pos + 8).reverse();
    assert(r =~= be64(v));
    assert(r.subrange(0, 8) =~= r);
    lemma_be64_at(r, 0, v);
}

/// Two's complement loses nothing: a signed number in range is the signed
/// reading of its own unsigned word.
pub proof fn lemma_signed_roundtrip(v: int, modulus: int)
    requires
        modulus > 0,
        modulus % 2 == 0,
        -modulus <= 2 * v < modulus,
    ensures
        0 <= unsigned_of(v, modulus) < modulus,
        signed_of(unsigned_of(v, modulus), modulus) == v,
{
    if v < 0 {
        assert(v % modulus == v + modulus) by {
            vstd::arithmetic::div_mod::lemma_small_mod((v + modulus) as nat, modulus as nat);
            vstd::arithmetic::div_mod::lemma_mod_add_multiples_vanish(v, modulus);
        }
    } else {
        vstd::arithmetic::div_mod::lemma_small_mod(v as nat, modulus as nat);
    }
}

/// Appends `v` as two big-endian bytes.
pub fn push_be16(out: &mut Vec<u8>, v: u16)
    ensures
        final(out)@ == old(out)@ + be16(v as int),
{
    out.push((v / 0x100) as u8);
    out.push((v % 0x100) as u8);
    assert(out@ =~= old(out)@ + be16(v as int));
}

/// Appends `v` as four big-endian bytes.
pub fn push_be32(out: &mut Vec<u8>, v: u32)
    ensures
        final(out)@ == old(out)@ + be32(v as int),
{
    out.push((v / 0x100_0000) as u8);
    out.push(((v / 0x1_0000) % 0x100) as u8);
    out.push(((v / 0x100) % 0x100) as u8);
    out.push((v % 0x100) as u8);
    assert(out@ =~= old(out)@ + be32(v as int));
}

/// Appends `v` as eight big-endian bytes.
pub fn push_be64(out: &mut Vec<u8>, v: u64)
    ensures
        final(out)@ == old(out)@ + be64(v as int),
{
    push_be32(out, (v / 0x1_0000_0000) as u32);
    push_be32(out, (v % 0x1_0000_0000) as u32);
    assert(out@ =~= old(out)@ + be64(v as int));
}

/// Appends `v` as sixteen big-endian bytes.
pub fn push_be128(out: &mut Vec<u8>, v: u128)
    ensures
        final(out)@ == old(out)@ + be128(v as int),
{
    push_be64(out, (v / 0x1_0000_0000_0000_0000) as u64);
    push_be64(out, (v % 0x1_0000_0000_0000_0000) as u64);
    assert(out@ =~= old(out)@ + be128(v as int));
}

/// Appends `v` as eight little-endian bytes.
pub fn push_le64(out: &mut Vec<u8>, v: u64)
    ensures
        final(out)@ == old(out)@ + le64(v as int),
{
    let lo: u32 = (v % 0x1_0000_0000) as u32;
    let hi: u32 = (v / 0x1_0000_0000) as u32;
    out.push((lo % 0x100) as u8);
    out.push(((lo / 0x100) % 0x100) as u8);
    out.push(((lo / 0x1_0000) % 0x100) as u8);
    out.push((lo / 0x100_0000) as u8);
    out.push((hi % 0x100) as u8);
    out.push(((hi / 0x100) % 0x100) as u8);
    out.push(((hi / 0x1_0000) % 0x100) as u8);
    out.push((hi / 0x100_0000) as u8);
    assert(out@ =~= old(out)@ + le64(v as int));
}

/// Whether `n` bytes can be read at `pos`.
pub fn has_bytes(bytes: &[u8], pos: usize, n: usize) -> (r: bool)
    ensures
        r == (pos + n <= bytes.len()),
{
    pos <= bytes.len() && n <= bytes.len() - pos
}

/// Reads two big-endian bytes at `pos`.
pub fn read_be16(bytes: &[u8], pos: usize) -> (r: u16)
    requires
        pos + 2 <= bytes.len(),
    ensures
        r == be16_at(bytes@, pos as int),
{
    (bytes[pos] as u16) * 0x100 + (bytes[pos + 1] as u16)
}

/// Reads four big-endian bytes at `pos`.
pub fn read_be32(bytes: &[u8], pos: usize) -> (r: u32)
    requires
        pos + 4 <= bytes.len(),
    ensures
        r == be32_at(bytes@, pos as int),
{
    (bytes[pos] as u32) * 0x100_0000 + (bytes[pos + 1] as u32) * 0x1_0000 + (bytes[pos
        + 2] as u32) * 0x100 + (bytes[pos + 3] as u32)
}

/// Reads eight big-endian bytes at `pos`.
pub fn read_be64(bytes: &[u8], pos: usize) -> (r: u64)
    requires
        pos + 8 <= bytes.len(),
    ensures
        r == be64_at(bytes@, pos as int),
{
    (read_be32(bytes, pos) as u64) * 0x1_0000_0000 + (read_be32(bytes, pos + 4) as u64)
}

/// Reads sixteen big-endian bytes at `pos`.
pub fn read_be128(bytes: &[u8], pos: usize) -> (r: u128)
    requires
        pos + 16 <= bytes.len(),
    ensures
        r == be128_at(bytes@, pos as int),
{
    (read_be64(bytes, pos) as u128) * 0x1_0000_0000_0000_0000 + (read_be64(bytes, pos + 8) as u128)
}

/// Reads eight little-endian bytes at `pos`.
pub fn read_le64(bytes: &[u8], pos: usize) -> (r: u64)
    requires
        pos + 8 <= bytes.len(),
    ensures
        r == le64_at(bytes@, pos as int),
{
    let lo: u32 = (bytes[pos + 3] as u32) * 0x100_0000 + (bytes[pos + 2] as u32) * 0x1_0000 + (
    bytes[pos + 1] as u32) * 0x100 + (bytes[pos] as u32);
    let hi: u32 = (bytes[pos + 7] as u32) * 0x100_0000 + (bytes[pos + 6] as u32) * 0x1_0000 + (
    bytes[pos + 5] as u32) * 0x100 + (bytes[pos + 4] as u32);
    proof {
        let r = bytes@.subrange(pos as int, pos + 8).reverse();
        assert(r[0] == bytes@[pos + 7] && r[1] == bytes@[pos + 6] && r[2] == bytes@[pos + 5]
            && r[3] == bytes@[pos + 4] && r[4] == bytes@[pos + 3] && r[5] == bytes@[pos + 2]
            && r[6] == bytes@[pos + 1] && r[7] == bytes@[pos as int]);
    }
    (hi as u64) * 0x1_0000_0000 + (lo as u64)
}

/// The unsigned 16-bit word of a signed number.
pub fn word_of_i16(v: i16) -> (u: u16)
    ensures
        u == unsigned_of(v as int, 0x1_0000),
{
    if v < 0 {
        (v as i32 + 0x1_0000) as u16
    } else {
        v as u16
    }
}

/// The unsigned 32-bit word of a signed number.
pub fn word_of_i32(v: i32) -> (u: u32)
    ensures
        u == unsigned_of(v as int, 0x1_0000_0000),
{
    if v < 0 {
        (v as i64 + 0x1_0000_0000) as u32
    } else {
        v as u32
    }
}

/// The unsigned 64-bit word of a signed number.
pub fn word_of_i64(v: i64) -> (u: u64)
    ensures
        u == unsigned_of(v as int, 0x1_0000_0000_0000_0000),
{
    if v < 0 {
        (v as i128 + 0x1_0000_0000_0000_0000) as u64
    } else {
        v as u64
    }
}

/// The signed reading of an 8-bit word.
pub fn i8_of_word(u: u8) -> (v: i8)
    ensures
        v == signed_of(u as int, 0x100),
{
    if u >= 0x80 {
        (u as i16 - 0x100) as i8
    } else {
        u as i8
    }
}

/// The unsigned 8-bit word of a signed number.
pub fn word_of_i8(v: i8) -> (u: u8)
    ensures
        u == unsigned_of(v as int, 0x100),
{
    if v < 0 {
        (v as i16 + 0x100) as u8
    } else {
        v as u8
    }
}

/// The signed reading of a 16-bit word.
pub fn i16_of_word(u: u16) -> (v: i16)
    ensures
        v == signed_of(u as int, 0x1_0000),
{
    if u >= 0x8000 {
        (u as i32 - 0x1_0000) as i16
    } else {
        u as i16
    }
}

/// The signed reading of a 32-bit word.
pub fn i32_of_word(u: u32) -> (v: i32)
    ensures
        v == signed_of(u as int, 0x1_0000_0000),
{
    if u >= 0x8000_0000 {
        (u as i64 - 0x1_0000_0000) as i32
    } else {
        u as i32
    }
}

/// The signed reading of a 64-bit word.
pub fn i64_of_word(u: u64) -> (v: i64)
    ensures
        v == signed_of(u as int, 0x1_0000_0000_0000_0000),
{
    if u >= 0x8000_0000_0000_0000 {
        (u as i128 - 0x1_0000_0000_0000_0000) as i64
    } else {
        u as i64
    }
}

/// Appends `src`.
pub fn push_bytes(out: &mut Vec<u8>, src: &[u8])
    ensures
        final(out)@ == old(out)@ + src@,
{
    let mut i: usize = 0;
    while i < src.len()
        invariant
            i <= src.len(),
            out@ == old(out)@ + src@.subrange(0, i as int),
        decreases src.len() - i,
    {
        out.push(src[i]);
        i += 1;
    }
    assert(src@.subrange(0, src.len() as int) =~= src@);
}

/// Copies `bytes[from..to]`.
pub fn copy_range(bytes: &[u8], from: usize, to: usize) -> (r: Vec<u8>)
    requires
        from <= to <= bytes.len(),
    ensures
        r@ == bytes@.subrange(from as int, to as int),
{
    let mut r: Vec<u8> = Vec::new();
    let mut i: usize = from;
    while i < to
        invariant
            from <= i <= to <= bytes.len(),
            r@ == bytes@.subrange(from as int, i as int),
        decreases to - i,
    {
        r.push(bytes[i]);
        i += 1;
    }
    r
}

/// The quotient and the remainder by `m` of a number taken modulo `m * m`.
proof fn lemma_split_word(v: int, m: int)
    requires
        m > 0,
    ensures
        (v % (m * m)) / m == (v / m) % m,
        (v % (m * m)) % m == v % m,
{
    lemma_join_words(v, m);
    vstd::arithmetic::div_mod::lemma_mod_bound(v, m);
    vstd::arithmetic::div_mod::lemma_mod_bound(v / m, m);
    vstd::arithmetic::div_mod::lemma_small_mod((v % m) as nat, m as nat);
    vstd::arithmetic::div_mod::lemma_fundamental_div_mod_converse(
        v % (m * m),
        m,
        (v / m) % m,
        v % m,
    );
}

/// The two-byte encoding depends on the number only through its word.
pub proof fn lemma_be16_of_word(v: int)
    ensures
        be16(v % 0x1_0000) == be16(v),
{
    lemma_split_word(v, 0x100);
    let w = v % 0x1_0000;
    assert((w / 0x100) % 0x100 == (v / 0x100) % 0x100);
    assert(be16(w) =~= be16(v));
}

/// The four-byte encoding depends on the number only through its word.
pub proof fn lemma_be32_of_word(v: int)
    ensures
        be32(v % 0x1_0000_0000) == be32(v),
{
    lemma_split_word(v, 0x1_0000);
    let w = v % 0x1_0000_0000;
    let hi = v / 0x1_0000;
    let lo = v % 0x1_0000;
    assert(w / 0x1_0000 == hi % 0x1_0000);
    assert(w % 0x1_0000 == lo);
    lemma_digits_of_halves(w);
    lemma_digits_of_halves(v);
    lemma_split_word(hi, 0x100);
    lemma_split_word(w / 0x1_0000, 0x100);
    assert(be32(w) =~= be32(v));
}

/// The four base-256 digits of a number are the two digits of its upper
/// half word and the two digits of its lower half word.
proof fn lemma_digits_of_halves(v: int)
    ensures
        (v / 0x100_0000) % 0x100 == ((v / 0x1_0000) / 0x100) % 0x100,
        (v / 0x1_0000) % 0x100 == (v / 0x1_0000) % 0x100,
        (v / 0x100) % 0x100 == ((v % 0x1_0000) / 0x100) % 0x100,
        v % 0x100 == (v % 0x1_0000) % 0x100,
{
    lemma_split_word(v, 0x100);
    let hi = v / 0x1_0000;
    let q = hi / 0x100;
    assert(v == 0x100_0000 * q + (0x1_0000 * (hi % 0x100) + v % 0x1_0000));
    assert(v / 0x100_0000 == q);
}

/// The eight-byte encoding depends on the number only through its word.
pub proof fn lemma_be64_of_word(v: int)
    ensures
        be64(v % 0x1_0000_0000_0000_0000) == be64(v),
{
    lemma_split_word(v, 0x1_0000_0000);
    let w = v % 0x1_0000_0000_0000_0000;
    lemma_be32_of_word(v / 0x1_0000_0000);
    lemma_be32_of_word(w / 0x1_0000_0000);
}

} // verus!
