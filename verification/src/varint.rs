//! Variable-length unsigned integers: seven bits to a byte, least
//! significant group first, the top bit of a byte set while more follow.

use crate::bytes::holds_at;
use crate::error::DecodeError;
use vstd::prelude::*;

verus! {

/// The most bytes a 32-bit number may take.
pub const MAX_VARINT32_BYTES: usize = 5;

/// The most bytes a 64-bit number may take.
pub const MAX_VARINT64_BYTES: usize = 10;

/// The encoding of `n`.
pub open spec fn varint(n: nat) -> Seq<u8>
    decreases n,
{
    if n < 0x80 {
        seq![n as u8]
    } else {
        seq![(n % 0x80 + 0x80) as u8] + varint(n / 0x80)
    }
}

/// `128^k`.
pub open spec fn pow128(k: nat) -> nat
    decreases k,
{
    if k == 0 {
        1
    } else {
        0x80 * pow128((k - 1) as nat)
    }
}

/// The number that starts at `pos` and how many bytes it takes, read from
/// at most `limit` bytes.
pub open spec fn varint_at(bytes: Seq<u8>, pos: int, limit: nat) -> Result<(nat, nat), DecodeError>
    decreases limit,
{
    if limit == 0 {
        Err(DecodeError::BadVarint)
    } else if pos < 0 || pos >= bytes.len() {
        Err(DecodeError::Truncated)
    } else if bytes[pos] < 0x80 {
        Ok((bytes[pos] as nat, 1))
    } else {
        match varint_at(bytes, pos + 1, (limit - 1) as nat) {
            Ok((high, len)) => Ok(((bytes[pos] - 0x80 + 0x80 * high) as nat, 1 + len)),
            Err(e) => Err(e),
        }
    }
}

/// A number read with `varint_at` whose low part `acc` of weight below
/// `unit` was read before from `used` bytes.
pub open spec fn varint_join(
    acc: nat,
    unit: nat,
    used: nat,
    rest: Result<(nat, nat), DecodeError>,
) -> Result<(nat, nat), DecodeError> {
    match rest {
        Ok((high, len)) => Ok((acc + unit * high, used + len)),
        Err(e) => Err(e),
    }
}

/// As [`varint_at`] with a bound on the value: a number above `max` is
/// refused.
pub open spec fn varint_below(bytes: Seq<u8>, pos: int, limit: nat, max: nat) -> Result<
    (nat, nat),
    DecodeError,
> {
    match varint_at(bytes, pos, limit) {
        Ok((v, len)) => if v <= max {
            Ok((v, len))
        } else {
            Err(DecodeError::BadVarint)
        },
        Err(e) => Err(e),
    }
}

/// A 32-bit number at `pos`.
pub open spec fn varint32_at(bytes: Seq<u8>, pos: int) -> Result<(nat, nat), DecodeError> {
    varint_below(bytes, pos, MAX_VARINT32_BYTES as nat, u32::MAX as nat)
}

/// A 64-bit number at `pos`.
pub open spec fn varint64_at(bytes: Seq<u8>, pos: int) -> Result<(nat, nat), DecodeError> {
    varint_below(bytes, pos, MAX_VARINT64_BYTES as nat, u64::MAX as nat)
}

/// The powers of 128 that matter here.
pub proof fn lemma_pow128()
    ensures
        pow128(0) == 1,
        pow128(5) == 0x8_0000_0000,
        pow128(10) == 0x40_0000_0000_0000_0000,
        forall|k: nat| #[trigger] pow128(k + 1) == 0x80 * pow128(k),
        forall|i: nat, j: nat| i <= j ==> #[trigger] pow128(i) <= #[trigger] pow128(j),
{
    reveal_with_fuel(pow128, 11);
    assert forall|i: nat, j: nat| i <= j implies #[trigger] pow128(i) <= #[trigger] pow128(j) by {
        lemma_pow128_monotonic(i, j);
    }
}

proof fn lemma_pow128_monotonic(i: nat, j: nat)
    requires
        i <= j,
    ensures
        1 <= pow128(i) <= pow128(j),
    decreases j,
{
    if j == 0 {
    } else if i == j {
        lemma_pow128_monotonic((i - 1) as nat, (j - 1) as nat);
    } else {
        lemma_pow128_monotonic(i, (j - 1) as nat);
    }
}

/// An encoding of a number below `128^k`, `k` positive, has at most `k`
/// bytes, and at least one.
pub proof fn lemma_varint_len(n: nat, k: nat)
    requires
        k >= 1,
        n < pow128(k),
    ensures
        1 <= varint(n).len() <= k,
    decreases n,
{
    if n >= 0x80 {
        assert(k >= 2) by {
            reveal_with_fuel(pow128, 2);
        }
        lemma_varint_len(n / 0x80, (k - 1) as nat);
    }
}

/// Decoding inverts encoding: where `bytes` holds the encoding of `n` at
/// `pos`, and `n` is below `128^limit`, `limit` positive, reading at `pos` yields `n` and
/// stops right behind the encoding, whatever follows it.
pub proof fn lemma_varint_roundtrip(bytes: Seq<u8>, pos: int, n: nat, limit: nat)
    requires
        holds_at(bytes, pos, varint(n)),
        limit >= 1,
        n < pow128(limit),
    ensures
        varint_at(bytes, pos, limit) == Ok::<(nat, nat), DecodeError>((n, varint(n).len())),
    decreases n,
{
    let enc = varint(n);
    assert(bytes[pos] == bytes.subrange(pos, pos + enc.len())[0]);
    if n >= 0x80 {
        let tail = varint(n / 0x80);
        crate::bytes::lemma_holds_concat(bytes, pos, seq![(n % 0x80 + 0x80) as u8], tail);
        assert(limit >= 2) by {
            reveal_with_fuel(pow128, 2);
        }
        lemma_varint_roundtrip(bytes, pos + 1, n / 0x80, (limit - 1) as nat);
    }
}

/// Appends the encoding of `v`.
pub fn push_varint(out: &mut Vec<u8>, v: u64)
    ensures
        final(out)@ == old(out)@ + varint(v as nat),
{
    let mut n: u64 = v;
    while n >= 0x80
        invariant
            old(out)@ + varint(v as nat) == out@ + varint(n as nat),
        decreases n,
    {
        let ghost before = out@;
        out.push((n % 0x80 + 0x80) as u8);
        assert(before + varint(n as nat) =~= out@ + varint((n / 0x80) as nat));
        n = n / 0x80;
    }
    let ghost before = out@;
    out.push(n as u8);
    assert(before + varint(n as nat) =~= out@);
}

/// Reads a number of at most `limit` bytes at `pos`.
pub fn read_varint(bytes: &[u8], pos: usize, limit: usize) -> (r: Result<(u128, usize), DecodeError>)
    requires
        limit <= MAX_VARINT64_BYTES,
    ensures
        match r {
            Ok((v, next)) => varint_at(bytes@, pos as int, limit as nat) == Ok::<
                (nat, nat),
                DecodeError,
            >((v as nat, (next - pos) as nat)) && pos < next <= bytes.len() && v < pow128(
                limit as nat,
            ),
            Err(e) => varint_at(bytes@, pos as int, limit as nat) == Err::<
                (nat, nat),
                DecodeError,
            >(e),
        },
{
    let mut acc: u128 = 0;
    let mut unit: u128 = 1;
    let mut i: usize = 0;
    proof {
        lemma_pow128();
    }
    while i < limit
        invariant
            i <= limit <= MAX_VARINT64_BYTES,
            unit == pow128(i as nat),
            acc < unit,
            i > 0 ==> pos + i <= bytes.len(),
            varint_at(bytes@, pos as int, limit as nat) == varint_join(
                acc as nat,
                unit as nat,
                i as nat,
                varint_at(bytes@, pos + i, (limit - i) as nat),
            ),
        decreases limit - i,
    {
        proof {
            lemma_pow128();
            assert(pow128((i + 1) as nat) == 0x80 * pow128(i as nat));
            assert(pow128((i + 1) as nat) <= pow128(10));
            assert(pow128(i as nat) <= pow128(limit as nat));
            assert(pow128((i + 1) as nat) <= pow128(limit as nat));
        }
        if pos >= bytes.len() || i >= bytes.len() - pos {
            return Err(DecodeError::Truncated);
        }
        let b: u8 = bytes[pos + i];
        if b < 0x80 {
            assert(acc + unit * b < 0x80 * unit) by (nonlinear_arith)
                requires
                    acc < unit,
                    b < 0x80,
            ;
            return Ok((acc + unit * (b as u128), pos + i + 1));
        }
        let ghost rest = varint_at(bytes@, pos + i + 1, (limit - i - 1) as nat);
        assert(varint_join(
            acc as nat,
            unit as nat,
            i as nat,
            varint_at(bytes@, pos + i, (limit - i) as nat),
        ) == varint_join(
            (acc + unit * (b - 0x80)) as nat,
            (unit * 0x80) as nat,
            (i + 1) as nat,
            rest,
        )) by {
            if let Ok((high, len)) = rest {
                assert(acc + unit * (b - 0x80 + 0x80 * high) == (acc + unit * (b - 0x80)) + (unit
                    * 0x80) * high) by (nonlinear_arith);
                assert(b - 0x80 + 0x80 * high >= 0);
                assert(unit * (b - 0x80) >= 0) by (nonlinear_arith)
                    requires
                        unit >= 0,
                        b >= 0x80,
                ;
            }
        }
        assert(acc + unit * (b - 0x80) < 0x80 * unit) by (nonlinear_arith)
            requires
                acc < unit,
                0x80 <= b < 0x100,
        ;
        assert(unit * (b - 0x80) >= 0) by (nonlinear_arith)
            requires
                unit >= 0,
                b >= 0x80,
        ;
        acc = acc + unit * ((b - 0x80) as u128);
        unit = unit * 0x80;
        i = i + 1;
    }
    Err(DecodeError::BadVarint)
}

/// Reads a 32-bit number at `pos`.
pub fn read_varint32(bytes: &[u8], pos: usize) -> (r: Result<(u32, usize), DecodeError>)
    ensures
        match r {
            Ok((v, next)) => varint32_at(bytes@, pos as int) == Ok::<(nat, nat), DecodeError>(
                (v as nat, (next - pos) as nat),
            ) && pos < next <= bytes.len(),
            Err(e) => varint32_at(bytes@, pos as int) == Err::<(nat, nat), DecodeError>(e),
        },
{
    match read_varint(bytes, pos, MAX_VARINT32_BYTES) {
        Ok((v, next)) => {
            if v <= 0xFFFF_FFFF {
                Ok((v as u32, next))
            } else {
                Err(DecodeError::BadVarint)
            }
        },
        Err(e) => Err(e),
    }
}

/// Reads a 64-bit number at `pos`.
pub fn read_varint64(bytes: &[u8], pos: usize) -> (r: Result<(u64, usize), DecodeError>)
    ensures
        match r {
            Ok((v, next)) => varint64_at(bytes@, pos as int) == Ok::<(nat, nat), DecodeError>(
                (v as nat, (next - pos) as nat),
            ) && pos < next <= bytes.len(),
            Err(e) => varint64_at(bytes@, pos as int) == Err::<(nat, nat), DecodeError>(e),
        },
{
    match read_varint(bytes, pos, MAX_VARINT64_BYTES) {
        Ok((v, next)) => {
            if v <= 0xFFFF_FFFF_FFFF_FFFF {
                Ok((v as u64, next))
            } else {
                Err(DecodeError::BadVarint)
            }
        },
        Err(e) => Err(e),
    }
}

} // verus!
