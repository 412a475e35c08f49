//! The binary protocol: fixed-width big-endian integers, length-prefixed
//! byte strings, containers with a type tag and a count in front, structs as
//! tagged fields closed by a stop byte.

use crate::bytes::{
    lemma_first_byte, holds_at, lemma_be128_at, lemma_be16_at, lemma_be32_at, lemma_be64_at, lemma_be_len,
    lemma_holds_concat, lemma_signed_roundtrip, be128, be128_at, be16, be16_at, be32, be32_at, be64, be64_at, copy_range, has_bytes,
    i16_of_word, i32_of_word, i64_of_word, i8_of_word, lemma_be16_of_word, lemma_be32_of_word, lemma_be64_of_word, push_be128, push_be16,
    push_be32, push_be64, push_bytes, read_be128, read_be16, read_be32, read_be64, signed_of,
    unsigned_of, word_of_i16, word_of_i32, word_of_i64, word_of_i8,
};
use crate::error::DecodeError;
use crate::value::{
    entries_wf, fields_wf, items_wf, lemma_wf_unfold, view_entries, view_fields, view_items, TType,
    Val, Value, MAX_SIZE,
};
use vstd::prelude::*;

verus! {

/// The byte that stands for a type.
pub open spec fn binary_tag(t: TType) -> u8 {
    match t {
        TType::Stop => 0,
        TType::Bool => 2,
        TType::I8 => 3,
        TType::Double => 4,
        TType::I16 => 6,
        TType::I32 => 8,
        TType::I64 => 10,
        TType::Binary => 11,
        TType::Struct => 12,
        TType::MapOf => 13,
        TType::SetOf => 14,
        TType::ListOf => 15,
        TType::Uuid => 16,
    }
}

/// The type that a byte stands for, if any.
pub open spec fn binary_type(b: u8) -> Option<TType> {
    if b == 0 {
        Some(TType::Stop)
    } else if b == 2 {
        Some(TType::Bool)
    } else if b == 3 {
        Some(TType::I8)
    } else if b == 4 {
        Some(TType::Double)
    } else if b == 6 {
        Some(TType::I16)
    } else if b == 8 {
        Some(TType::I32)
    } else if b == 10 {
        Some(TType::I64)
    } else if b == 11 {
        Some(TType::Binary)
    } else if b == 12 {
        Some(TType::Struct)
    } else if b == 13 {
        Some(TType::MapOf)
    } else if b == 14 {
        Some(TType::SetOf)
    } else if b == 15 {
        Some(TType::ListOf)
    } else if b == 16 {
        Some(TType::Uuid)
    } else {
        None
    }
}

/// The encoding of a value.
pub open spec fn binary_encode(v: Val) -> Seq<u8>
    decreases v,
{
    match v {
        Val::Bool(b) => seq![if b { 1u8 } else { 0u8 }],
        Val::I8(x) => seq![unsigned_of(x as int, 0x100) as u8],
        Val::I16(x) => be16(x as int),
        Val::I32(x) => be32(x as int),
        Val::I64(x) => be64(x as int),
        Val::Double(bits) => be64(bits as int),
        Val::Binary(bytes) => be32(bytes.len() as int) + bytes,
        Val::Uuid(u) => be128(u as int),
        Val::ListOf(t, items) => seq![binary_tag(t)] + be32(items.len() as int)
            + binary_encode_items(items, 0),
        Val::SetOf(t, items) => seq![binary_tag(t)] + be32(items.len() as int)
            + binary_encode_items(items, 0),
        Val::MapOf(k, w, entries) => seq![binary_tag(k), binary_tag(w)] + be32(
            entries.len() as int,
        ) + binary_encode_entries(entries, 0),
        Val::Struct(fields) => binary_encode_fields(fields, 0),
    }
}

/// The encodings of `items[from..]`, one after the other.
pub open spec fn binary_encode_items(items: Seq<Val>, from: int) -> Seq<u8>
    decreases items, items.len() - from,
{
    if 0 <= from < items.len() {
        binary_encode(items[from]) + binary_encode_items(items, from + 1)
    } else {
        Seq::empty()
    }
}

/// The encodings of `entries[from..]`, each key before its value.
pub open spec fn binary_encode_entries(entries: Seq<(Val, Val)>, from: int) -> Seq<u8>
    decreases entries, entries.len() - from,
{
    if 0 <= from < entries.len() {
        binary_encode(entries[from].0) + binary_encode(entries[from].1) + binary_encode_entries(
            entries,
            from + 1,
        )
    } else {
        Seq::empty()
    }
}

/// The encodings of `fields[from..]`, each behind its type and id, and the
/// stop byte.
pub open spec fn binary_encode_fields(fields: Seq<(i16, Val)>, from: int) -> Seq<u8>
    decreases fields, fields.len() - from,
{
    if 0 <= from < fields.len() {
        seq![binary_tag(fields[from].1.ttype())] + be16(fields[from].0 as int) + binary_encode(
            fields[from].1,
        ) + binary_encode_fields(fields, from + 1)
    } else {
        seq![0u8]
    }
}

/// How many bytes lie at and behind `pos`.
pub open spec fn remaining(bytes: Seq<u8>, pos: int) -> nat {
    if pos < bytes.len() {
        (bytes.len() - pos) as nat
    } else {
        0
    }
}

/// Whether `n` bytes lie at `pos`.
pub open spec fn fits(bytes: Seq<u8>, pos: int, n: int) -> bool {
    0 <= pos && 0 <= n && pos + n <= bytes.len()
}

/// The length or count that the four bytes at `pos` state.
pub open spec fn binary_size_at(bytes: Seq<u8>, pos: int) -> Result<nat, DecodeError> {
    if !fits(bytes, pos, 4) {
        Err(DecodeError::Truncated)
    } else if be32_at(bytes, pos) >= 0x8000_0000 {
        Err(DecodeError::BadSize)
    } else {
        Ok(be32_at(bytes, pos) as nat)
    }
}

/// The type at `pos`.
pub open spec fn binary_type_at(bytes: Seq<u8>, pos: int) -> Result<TType, DecodeError> {
    if !fits(bytes, pos, 1) {
        Err(DecodeError::Truncated)
    } else {
        match binary_type(bytes[pos]) {
            Some(t) => Ok(t),
            None => Err(DecodeError::BadType),
        }
    }
}

/// The element type and count of the list or set header at `pos`.
pub open spec fn binary_list_header(bytes: Seq<u8>, pos: int) -> Result<(TType, nat), DecodeError> {
    match binary_type_at(bytes, pos) {
        Err(e) => Err(e),
        Ok(t) => match binary_size_at(bytes, pos + 1) {
            Err(e) => Err(e),
            Ok(n) => Ok((t, n)),
        },
    }
}

/// The key type, value type and count of the map header at `pos`.
pub open spec fn binary_map_header(bytes: Seq<u8>, pos: int) -> Result<
    (TType, TType, nat),
    DecodeError,
> {
    match binary_type_at(bytes, pos) {
        Err(e) => Err(e),
        Ok(k) => match binary_type_at(bytes, pos + 1) {
            Err(e) => Err(e),
            Ok(w) => match binary_size_at(bytes, pos + 2) {
                Err(e) => Err(e),
                Ok(n) => Ok((k, w, n)),
            },
        },
    }
}

/// The field header at `pos`: `None` for the stop byte, else the type and
/// the id of the field.
pub open spec fn binary_field_header(bytes: Seq<u8>, pos: int) -> Result<
    Option<(TType, i16)>,
    DecodeError,
> {
    match binary_type_at(bytes, pos) {
        Err(e) => Err(e),
        Ok(t) => if t == TType::Stop {
            Ok(None)
        } else if !fits(bytes, pos + 1, 2) {
            Err(DecodeError::Truncated)
        } else {
            Ok(Some((t, signed_of(be16_at(bytes, pos + 1), 0x1_0000) as i16)))
        },
    }
}

/// The value of a type without parts that starts at `pos`, and how many
/// bytes it takes.
pub open spec fn binary_decode_plain(t: TType, bytes: Seq<u8>, pos: int) -> Result<
    (Val, nat),
    DecodeError,
> {
    match t {
        TType::Bool => if fits(bytes, pos, 1) {
            Ok((Val::Bool(bytes[pos] != 0), 1))
        } else {
            Err(DecodeError::Truncated)
        },
        TType::I8 => if fits(bytes, pos, 1) {
            Ok((Val::I8(signed_of(bytes[pos] as int, 0x100) as i8), 1))
        } else {
            Err(DecodeError::Truncated)
        },
        TType::I16 => if fits(bytes, pos, 2) {
            Ok((Val::I16(signed_of(be16_at(bytes, pos), 0x1_0000) as i16), 2))
        } else {
            Err(DecodeError::Truncated)
        },
        TType::I32 => if fits(bytes, pos, 4) {
            Ok((Val::I32(signed_of(be32_at(bytes, pos), 0x1_0000_0000) as i32), 4))
        } else {
            Err(DecodeError::Truncated)
        },
        TType::I64 => if fits(bytes, pos, 8) {
            Ok((Val::I64(signed_of(be64_at(bytes, pos), 0x1_0000_0000_0000_0000) as i64), 8))
        } else {
            Err(DecodeError::Truncated)
        },
        TType::Double => if fits(bytes, pos, 8) {
            Ok((Val::Double(be64_at(bytes, pos) as u64), 8))
        } else {
            Err(DecodeError::Truncated)
        },
        TType::Uuid => if fits(bytes, pos, 16) {
            Ok((Val::Uuid(be128_at(bytes, pos) as u128), 16))
        } else {
            Err(DecodeError::Truncated)
        },
        TType::Binary => match binary_size_at(bytes, pos) {
            Err(e) => Err(e),
            Ok(n) => if fits(bytes, pos + 4, n as int) {
                Ok((Val::Binary(bytes.subrange(pos + 4, pos + 4 + n)), 4 + n))
            } else {
                Err(DecodeError::Truncated)
            },
        },
        _ => Err(DecodeError::BadType),
    }
}

/// The value of type `t` that starts at `pos`, and how many bytes it takes.
pub open spec fn binary_decode(t: TType, bytes: Seq<u8>, pos: int) -> Result<(Val, nat), DecodeError>
    decreases remaining(bytes, pos), 1nat,
{
    match t {
        TType::ListOf => match binary_list_header(bytes, pos) {
            Err(e) => Err(e),
            Ok((et, n)) => match binary_decode_items(et, bytes, pos + 5, n) {
                Err(e) => Err(e),
                Ok((items, len)) => Ok((Val::ListOf(et, items), 5 + len)),
            },
        },
        TType::SetOf => match binary_list_header(bytes, pos) {
            Err(e) => Err(e),
            Ok((et, n)) => match binary_decode_items(et, bytes, pos + 5, n) {
                Err(e) => Err(e),
                Ok((items, len)) => Ok((Val::SetOf(et, items), 5 + len)),
            },
        },
        TType::MapOf => match binary_map_header(bytes, pos) {
            Err(e) => Err(e),
            Ok((k, w, n)) => match binary_decode_entries(k, w, bytes, pos + 6, n) {
                Err(e) => Err(e),
                Ok((entries, len)) => Ok((Val::MapOf(k, w, entries), 6 + len)),
            },
        },
        TType::Struct => match binary_decode_fields(bytes, pos) {
            Err(e) => Err(e),
            Ok((fields, len)) => Ok((Val::Struct(fields), len)),
        },
        _ => binary_decode_plain(t, bytes, pos),
    }
}

/// The `count` values of type `t` that start at `pos`, and how many bytes
/// they take.
pub open spec fn binary_decode_items(t: TType, bytes: Seq<u8>, pos: int, count: nat) -> Result<
    (Seq<Val>, nat),
    DecodeError,
>
    decreases remaining(bytes, pos), count + 2,
{
    if count == 0 {
        Ok((Seq::empty(), 0))
    } else {
        match binary_decode(t, bytes, pos) {
            Err(e) => Err(e),
            Ok((first, len)) => match binary_decode_items(
                t,
                bytes,
                pos + len,
                (count - 1) as nat,
            ) {
                Err(e) => Err(e),
                Ok((rest, rest_len)) => Ok((seq![first] + rest, len + rest_len)),
            },
        }
    }
}

/// The `count` entries from `k` to `w` that start at `pos`, and how many
/// bytes they take.
pub open spec fn binary_decode_entries(
    k: TType,
    w: TType,
    bytes: Seq<u8>,
    pos: int,
    count: nat,
) -> Result<(Seq<(Val, Val)>, nat), DecodeError>
    decreases remaining(bytes, pos), count + 2,
{
    if count == 0 {
        Ok((Seq::empty(), 0))
    } else {
        match binary_decode(k, bytes, pos) {
            Err(e) => Err(e),
            Ok((key, key_len)) => match binary_decode(w, bytes, pos + key_len) {
                Err(e) => Err(e),
                Ok((value, value_len)) => match binary_decode_entries(
                    k,
                    w,
                    bytes,
                    pos + key_len + value_len,
                    (count - 1) as nat,
                ) {
                    Err(e) => Err(e),
                    Ok((rest, rest_len)) => Ok(
                        (seq![(key, value)] + rest, key_len + value_len + rest_len),
                    ),
                },
            },
        }
    }
}

/// The fields that start at `pos`, up to the stop byte, and how many bytes
/// they take, the stop byte included.
pub open spec fn binary_decode_fields(bytes: Seq<u8>, pos: int) -> Result<
    (Seq<(i16, Val)>, nat),
    DecodeError,
>
    decreases remaining(bytes, pos), 0nat,
{
    match binary_field_header(bytes, pos) {
        Err(e) => Err(e),
        Ok(None) => Ok((Seq::empty(), 1)),
        Ok(Some((t, id))) => match binary_decode(t, bytes, pos + 3) {
            Err(e) => Err(e),
            Ok((value, len)) => match binary_decode_fields(bytes, pos + 3 + len) {
                Err(e) => Err(e),
                Ok((rest, rest_len)) => Ok((seq![(id, value)] + rest, 3 + len + rest_len)),
            },
        },
    }
}

/// A decoding of a sequence whose first elements `prefix`, `used` bytes of
/// them, were decoded before.
pub open spec fn join<T>(prefix: Seq<T>, used: nat, rest: Result<(Seq<T>, nat), DecodeError>)
    -> Result<(Seq<T>, nat), DecodeError> {
    match rest {
        Ok((items, len)) => Ok((prefix + items, used + len)),
        Err(e) => Err(e),
    }
}

/// The byte that stands for a type.
pub fn binary_tag_of(t: TType) -> (b: u8)
    ensures
        b == binary_tag(t),
{
    match t {
        TType::Stop => 0,
        TType::Bool => 2,
        TType::I8 => 3,
        TType::Double => 4,
        TType::I16 => 6,
        TType::I32 => 8,
        TType::I64 => 10,
        TType::Binary => 11,
        TType::Struct => 12,
        TType::MapOf => 13,
        TType::SetOf => 14,
        TType::ListOf => 15,
        TType::Uuid => 16,
    }
}

/// The type that a byte stands for, if any.
pub fn binary_type_of(b: u8) -> (t: Option<TType>)
    ensures
        t == binary_type(b),
{
    match b {
        0 => Some(TType::Stop),
        2 => Some(TType::Bool),
        3 => Some(TType::I8),
        4 => Some(TType::Double),
        6 => Some(TType::I16),
        8 => Some(TType::I32),
        10 => Some(TType::I64),
        11 => Some(TType::Binary),
        12 => Some(TType::Struct),
        13 => Some(TType::MapOf),
        14 => Some(TType::SetOf),
        15 => Some(TType::ListOf),
        16 => Some(TType::Uuid),
        _ => None,
    }
}

/// Appends the encoding of `v`.
pub fn encode_binary(v: &Value, out: &mut Vec<u8>)
    requires
        v@.wf(),
    ensures
        final(out)@ == old(out)@ + binary_encode(v@),
    decreases v,
{
    proof {
        lemma_wf_unfold(v@);
    }
    match v {
        Value::Bool(b) => {
            out.push(if *b { 1 } else { 0 });
            assert(out@ =~= old(out)@ + binary_encode(v@));
        },
        Value::I8(x) => {
            out.push(word_of_i8(*x));
            assert(out@ =~= old(out)@ + binary_encode(v@));
        },
        Value::I16(x) => {
            proof {
                lemma_be16_of_word(*x as int);
            }
            push_be16(out, word_of_i16(*x));
        },
        Value::I32(x) => {
            proof {
                lemma_be32_of_word(*x as int);
            }
            push_be32(out, word_of_i32(*x));
        },
        Value::I64(x) => {
            proof {
                lemma_be64_of_word(*x as int);
            }
            push_be64(out, word_of_i64(*x));
        },
        Value::Double(bits) => {
            push_be64(out, *bits);
        },
        Value::Uuid(u) => {
            push_be128(out, *u);
        },
        Value::Binary(bytes) => {
            push_be32(out, bytes.len() as u32);
            push_bytes(out, bytes.as_slice());
            assert(out@ =~= old(out)@ + binary_encode(v@));
        },
        Value::ListOf(t, items) => {
            out.push(binary_tag_of(*t));
            push_be32(out, items.len() as u32);
            assert(out@ + binary_encode_items(view_items(items), 0) =~= old(out)@ + binary_encode(
                v@,
            ));
            encode_binary_items(items, out);
        },
        Value::SetOf(t, items) => {
            out.push(binary_tag_of(*t));
            push_be32(out, items.len() as u32);
            assert(out@ + binary_encode_items(view_items(items), 0) =~= old(out)@ + binary_encode(
                v@,
            ));
            encode_binary_items(items, out);
        },
        Value::MapOf(k, w, entries) => {
            out.push(binary_tag_of(*k));
            out.push(binary_tag_of(*w));
            push_be32(out, entries.len() as u32);
            assert(out@ + binary_encode_entries(view_entries(entries), 0) =~= old(out)@
                + binary_encode(v@));
            encode_binary_entries(entries, out);
        },
        Value::Struct(fields) => {
            encode_binary_fields(fields, out);
        },
    }
}

/// Appends the encodings of `items`, one after the other.
#[verifier::loop_isolation(false)]
fn encode_binary_items(items: &Vec<Value>, out: &mut Vec<u8>)
    requires
        forall|i: int| 0 <= i < items.len() ==> (#[trigger] view_items(items)[i]).wf(),
    ensures
        final(out)@ == old(out)@ + binary_encode_items(view_items(items), 0),
    decreases items,
{
    let ghost model = view_items(items);
    let mut i: usize = 0;
    while i < items.len()
        invariant
            i <= items.len(),
            out@ + binary_encode_items(model, i as int) == old(out)@ + binary_encode_items(
                model,
                0,
            ),
        decreases items.len() - i,
    {
        let ghost before = out@;
        assert(model[i as int] == items[i as int]@);
        encode_binary(&items[i], out);
        assert(out@ + binary_encode_items(model, i + 1) =~= before + binary_encode_items(
            model,
            i as int,
        ));
        i += 1;
    }
    assert(out@ + binary_encode_items(model, i as int) =~= out@);
}

/// Appends the encodings of `entries`, each key before its value.
#[verifier::loop_isolation(false)]
fn encode_binary_entries(entries: &Vec<(Value, Value)>, out: &mut Vec<u8>)
    requires
        forall|i: int|
            0 <= i < entries.len() ==> (#[trigger] view_entries(entries)[i]).0.wf() && view_entries(
                entries,
            )[i].1.wf(),
    ensures
        final(out)@ == old(out)@ + binary_encode_entries(view_entries(entries), 0),
    decreases entries,
{
    let ghost model = view_entries(entries);
    let mut i: usize = 0;
    while i < entries.len()
        invariant
            i <= entries.len(),
            out@ + binary_encode_entries(model, i as int) == old(out)@ + binary_encode_entries(
                model,
                0,
            ),
        decreases entries.len() - i,
    {
        let ghost before = out@;
        assert(model[i as int] == (entries[i as int].0@, entries[i as int].1@));
        encode_binary(&entries[i].0, out);
        encode_binary(&entries[i].1, out);
        assert(out@ + binary_encode_entries(model, i + 1) =~= before + binary_encode_entries(
            model,
            i as int,
        ));
        i += 1;
    }
    assert(out@ + binary_encode_entries(model, i as int) =~= out@);
}

/// Appends the encodings of `fields`, each behind its type and id, and the
/// stop byte.
#[verifier::loop_isolation(false)]
pub fn encode_binary_fields(fields: &Vec<(i16, Value)>, out: &mut Vec<u8>)
    requires
        forall|i: int| 0 <= i < fields.len() ==> (#[trigger] view_fields(fields)[i]).1.wf(),
    ensures
        final(out)@ == old(out)@ + binary_encode_fields(view_fields(fields), 0),
    decreases fields,
{
    let ghost model = view_fields(fields);
    let mut i: usize = 0;
    while i < fields.len()
        invariant
            i <= fields.len(),
            out@ + binary_encode_fields(model, i as int) == old(out)@ + binary_encode_fields(
                model,
                0,
            ),
        decreases fields.len() - i,
    {
        let ghost before = out@;
        assert(model[i as int] == (fields[i as int].0, fields[i as int].1@));
        proof {
            lemma_be16_of_word(fields[i as int].0 as int);
        }
        out.push(binary_tag_of(fields[i].1.ttype()));
        push_be16(out, word_of_i16(fields[i].0));
        encode_binary(&fields[i].1, out);
        assert(out@ + binary_encode_fields(model, i + 1) =~= before + binary_encode_fields(
            model,
            i as int,
        ));
        i += 1;
    }
    let ghost before = out@;
    out.push(0);
    assert(out@ =~= before + binary_encode_fields(model, i as int));
}

/// Reads the length or count at `pos`.
pub fn read_binary_size(bytes: &[u8], pos: usize) -> (r: Result<usize, DecodeError>)
    ensures
        match r {
            Ok(n) => binary_size_at(bytes@, pos as int) == Ok::<nat, DecodeError>(n as nat) && n
                <= MAX_SIZE && pos + 4 <= bytes.len(),
            Err(e) => binary_size_at(bytes@, pos as int) == Err::<nat, DecodeError>(e),
        },
{
    if !has_bytes(bytes, pos, 4) {
        return Err(DecodeError::Truncated);
    }
    let n = read_be32(bytes, pos);
    if n >= 0x8000_0000 {
        Err(DecodeError::BadSize)
    } else {
        Ok(n as usize)
    }
}

/// Reads the type at `pos`.
pub fn read_binary_type(bytes: &[u8], pos: usize) -> (r: Result<TType, DecodeError>)
    ensures
        r == binary_type_at(bytes@, pos as int),
        r is Ok ==> pos < bytes.len(),
{
    if !has_bytes(bytes, pos, 1) {
        return Err(DecodeError::Truncated);
    }
    match binary_type_of(bytes[pos]) {
        Some(t) => Ok(t),
        None => Err(DecodeError::BadType),
    }
}

/// Reads the field header at `pos`: `None` for the stop byte, else the type
/// and the id of the field.
pub fn read_binary_field_header(bytes: &[u8], pos: usize) -> (r: Result<
    Option<(TType, i16)>,
    DecodeError,
>)
    ensures
        r == binary_field_header(bytes@, pos as int),
        r is Ok ==> pos < bytes.len(),
        r matches Ok(Some(_)) ==> pos + 3 <= bytes.len(),
{
    let t = match read_binary_type(bytes, pos) {
        Ok(t) => t,
        Err(e) => {
            return Err(e);
        },
    };
    match t {
        TType::Stop => Ok(None),
        _ => {
            if !has_bytes(bytes, pos + 1, 2) {
                return Err(DecodeError::Truncated);
            }
            Ok(Some((t, i16_of_word(read_be16(bytes, pos + 1)))))
        },
    }
}

/// Reads the value of a type without parts that starts at `pos`; with it
/// comes the position behind the value.
pub fn decode_binary_plain(t: TType, bytes: &[u8], pos: usize) -> (r: Result<
    (Value, usize),
    DecodeError,
>)
    ensures
        match r {
            Ok((v, next)) => binary_decode_plain(t, bytes@, pos as int) == Ok::<
                (Val, nat),
                DecodeError,
            >((v@, (next - pos) as nat)) && pos < next <= bytes.len(),
            Err(e) => binary_decode_plain(t, bytes@, pos as int) == Err::<(Val, nat), DecodeError>(
                e,
            ),
        },
{
    match t {
        TType::Bool => {
            if !has_bytes(bytes, pos, 1) {
                return Err(DecodeError::Truncated);
            }
            Ok((Value::Bool(bytes[pos] != 0), pos + 1))
        },
        TType::I8 => {
            if !has_bytes(bytes, pos, 1) {
                return Err(DecodeError::Truncated);
            }
            Ok((Value::I8(i8_of_word(bytes[pos])), pos + 1))
        },
        TType::I16 => {
            if !has_bytes(bytes, pos, 2) {
                return Err(DecodeError::Truncated);
            }
            Ok((Value::I16(i16_of_word(read_be16(bytes, pos))), pos + 2))
        },
        TType::I32 => {
            if !has_bytes(bytes, pos, 4) {
                return Err(DecodeError::Truncated);
            }
            Ok((Value::I32(i32_of_word(read_be32(bytes, pos))), pos + 4))
        },
        TType::I64 => {
            if !has_bytes(bytes, pos, 8) {
                return Err(DecodeError::Truncated);
            }
            Ok((Value::I64(i64_of_word(read_be64(bytes, pos))), pos + 8))
        },
        TType::Double => {
            if !has_bytes(bytes, pos, 8) {
                return Err(DecodeError::Truncated);
            }
            Ok((Value::Double(read_be64(bytes, pos)), pos + 8))
        },
        TType::Uuid => {
            if !has_bytes(bytes, pos, 16) {
                return Err(DecodeError::Truncated);
            }
            Ok((Value::Uuid(read_be128(bytes, pos)), pos + 16))
        },
        TType::Binary => {
            let n = match read_binary_size(bytes, pos) {
                Ok(n) => n,
                Err(e) => {
                    return Err(e);
                },
            };
            if !has_bytes(bytes, pos + 4, n) {
                return Err(DecodeError::Truncated);
            }
            Ok((Value::Binary(copy_range(bytes, pos + 4, pos + 4 + n)), pos + 4 + n))
        },
        _ => Err(DecodeError::BadType),
    }
}

/// Reads the value of type `t` that starts at `pos`; with it comes the
/// position behind the value.
pub fn decode_binary(t: TType, bytes: &[u8], pos: usize) -> (r: Result<(Value, usize), DecodeError>)
    ensures
        match r {
            Ok((v, next)) => binary_decode(t, bytes@, pos as int) == Ok::<(Val, nat), DecodeError>(
                (v@, (next - pos) as nat),
            ) && pos < next <= bytes.len(),
            Err(e) => binary_decode(t, bytes@, pos as int) == Err::<(Val, nat), DecodeError>(e),
        },
    decreases remaining(bytes@, pos as int), 1nat,
{
    match t {
        TType::ListOf => {
            let et = match read_binary_type(bytes, pos) {
                Ok(t) => t,
                Err(e) => {
                    return Err(e);
                },
            };
            let n = match read_binary_size(bytes, pos + 1) {
                Ok(n) => n,
                Err(e) => {
                    return Err(e);
                },
            };
            match decode_binary_items(et, bytes, pos + 5, n) {
                Ok((items, next)) => Ok((Value::ListOf(et, items), next)),
                Err(e) => Err(e),
            }
        },
        TType::SetOf => {
            let et = match read_binary_type(bytes, pos) {
                Ok(t) => t,
                Err(e) => {
                    return Err(e);
                },
            };
            let n = match read_binary_size(bytes, pos + 1) {
                Ok(n) => n,
                Err(e) => {
                    return Err(e);
                },
            };
            match decode_binary_items(et, bytes, pos + 5, n) {
                Ok((items, next)) => Ok((Value::SetOf(et, items), next)),
                Err(e) => Err(e),
            }
        },
        TType::MapOf => {
            let k = match read_binary_type(bytes, pos) {
                Ok(t) => t,
                Err(e) => {
                    return Err(e);
                },
            };
            let w = match read_binary_type(bytes, pos + 1) {
                Ok(t) => t,
                Err(e) => {
                    return Err(e);
                },
            };
            let n = match read_binary_size(bytes, pos + 2) {
                Ok(n) => n,
                Err(e) => {
                    return Err(e);
                },
            };
            match decode_binary_entries(k, w, bytes, pos + 6, n) {
                Ok((entries, next)) => Ok((Value::MapOf(k, w, entries), next)),
                Err(e) => Err(e),
            }
        },
        TType::Struct => match decode_binary_fields(bytes, pos) {
            Ok((fields, next)) => Ok((Value::Struct(fields), next)),
            Err(e) => Err(e),
        },
        _ => decode_binary_plain(t, bytes, pos),
    }
}

/// Reads the `count` values of type `t` that start at `pos`; with them
/// comes the position behind the last.
#[verifier::loop_isolation(false)]
fn decode_binary_items(t: TType, bytes: &[u8], pos: usize, count: usize) -> (r: Result<
    (Vec<Value>, usize),
    DecodeError,
>)
    requires
        pos <= bytes.len(),
    ensures
        match r {
            Ok((items, next)) => binary_decode_items(t, bytes@, pos as int, count as nat) == Ok::<
                (Seq<Val>, nat),
                DecodeError,
            >((view_items(&items), (next - pos) as nat)) && pos <= next <= bytes.len(),
            Err(e) => binary_decode_items(t, bytes@, pos as int, count as nat) == Err::<
                (Seq<Val>, nat),
                DecodeError,
            >(e),
        },
    decreases remaining(bytes@, pos as int), count + 2,
{
    let mut items: Vec<Value> = Vec::new();
    let mut at: usize = pos;
    let mut i: usize = 0;
    assert(view_items(&items) =~= Seq::<Val>::empty());
    assert(join(
        Seq::<Val>::empty(),
        0,
        binary_decode_items(t, bytes@, pos as int, count as nat),
    ) == binary_decode_items(t, bytes@, pos as int, count as nat)) by {
        if let Ok((rest, len)) = binary_decode_items(t, bytes@, pos as int, count as nat) {
            assert(Seq::<Val>::empty() + rest =~= rest);
        }
    }
    while i < count
        invariant
            i <= count,
            pos <= at <= bytes.len(),
            binary_decode_items(t, bytes@, pos as int, count as nat) == join(
                view_items(&items),
                (at - pos) as nat,
                binary_decode_items(t, bytes@, at as int, (count - i) as nat),
            ),
        decreases count - i,
    {
        let ghost before = view_items(&items);
        match decode_binary(t, bytes, at) {
            Err(e) => {
                return Err(e);
            },
            Ok((v, next)) => {
                proof {
                    let rest = binary_decode_items(t, bytes@, next as int, (count - i - 1) as nat);
                    if let Ok((more, len)) = rest {
                        assert(before + (seq![v@] + more) =~= before.push(v@) + more);
                    }
                }
                items.push(v);
                assert(view_items(&items) =~= before.push(v@));
                at = next;
                i += 1;
            },
        }
    }
    assert(view_items(&items) + Seq::<Val>::empty() =~= view_items(&items));
    Ok((items, at))
}

/// Reads the `count` entries from `k` to `w` that start at `pos`; with them
/// comes the position behind the last.
#[verifier::loop_isolation(false)]
fn decode_binary_entries(k: TType, w: TType, bytes: &[u8], pos: usize, count: usize) -> (r:
    Result<(Vec<(Value, Value)>, usize), DecodeError>)
    requires
        pos <= bytes.len(),
    ensures
        match r {
            Ok((entries, next)) => binary_decode_entries(
                k,
                w,
                bytes@,
                pos as int,
                count as nat,
            ) == Ok::<(Seq<(Val, Val)>, nat), DecodeError>(
                (view_entries(&entries), (next - pos) as nat),
            ) && pos <= next <= bytes.len(),
            Err(e) => binary_decode_entries(k, w, bytes@, pos as int, count as nat) == Err::<
                (Seq<(Val, Val)>, nat),
                DecodeError,
            >(e),
        },
    decreases remaining(bytes@, pos as int), count + 2,
{
    let mut entries: Vec<(Value, Value)> = Vec::new();
    let mut at: usize = pos;
    let mut i: usize = 0;
    assert(view_entries(&entries) =~= Seq::<(Val, Val)>::empty());
    assert(join(
        Seq::<(Val, Val)>::empty(),
        0,
        binary_decode_entries(k, w, bytes@, pos as int, count as nat),
    ) == binary_decode_entries(k, w, bytes@, pos as int, count as nat)) by {
        if let Ok((rest, len)) = binary_decode_entries(k, w, bytes@, pos as int, count as nat) {
            assert(Seq::<(Val, Val)>::empty() + rest =~= rest);
        }
    }
    while i < count
        invariant
            i <= count,
            pos <= at <= bytes.len(),
            binary_decode_entries(k, w, bytes@, pos as int, count as nat) == join(
                view_entries(&entries),
                (at - pos) as nat,
                binary_decode_entries(k, w, bytes@, at as int, (count - i) as nat),
            ),
        decreases count - i,
    {
        let ghost before = view_entries(&entries);
        let (key, mid) = match decode_binary(k, bytes, at) {
            Err(e) => {
                return Err(e);
            },
            Ok(r) => r,
        };
        let (value, next) = match decode_binary(w, bytes, mid) {
            Err(e) => {
                return Err(e);
            },
            Ok(r) => r,
        };
        proof {
            let rest = binary_decode_entries(k, w, bytes@, next as int, (count - i - 1) as nat);
            if let Ok((more, len)) = rest {
                assert(before + (seq![(key@, value@)] + more) =~= before.push((key@, value@))
                    + more);
            }
        }
        entries.push((key, value));
        assert(view_entries(&entries) =~= before.push((key@, value@)));
        at = next;
        i += 1;
    }
    assert(view_entries(&entries) + Seq::<(Val, Val)>::empty() =~= view_entries(&entries));
    Ok((entries, at))
}

/// Reads the fields that start at `pos`, up to the stop byte; with them
/// comes the position behind the stop byte.
#[verifier::loop_isolation(false)]
pub fn decode_binary_fields(bytes: &[u8], pos: usize) -> (r: Result<
    (Vec<(i16, Value)>, usize),
    DecodeError,
>)
    ensures
        match r {
            Ok((fields, next)) => binary_decode_fields(bytes@, pos as int) == Ok::<
                (Seq<(i16, Val)>, nat),
                DecodeError,
            >((view_fields(&fields), (next - pos) as nat)) && pos < next <= bytes.len(),
            Err(e) => binary_decode_fields(bytes@, pos as int) == Err::<
                (Seq<(i16, Val)>, nat),
                DecodeError,
            >(e),
        },
    decreases remaining(bytes@, pos as int), 0nat,
{
    let mut fields: Vec<(i16, Value)> = Vec::new();
    let mut at: usize = pos;
    assert(view_fields(&fields) =~= Seq::<(i16, Val)>::empty());
    assert(join(Seq::<(i16, Val)>::empty(), 0, binary_decode_fields(bytes@, pos as int))
        == binary_decode_fields(bytes@, pos as int)) by {
        if let Ok((rest, len)) = binary_decode_fields(bytes@, pos as int) {
            assert(Seq::<(i16, Val)>::empty() + rest =~= rest);
        }
    }
    loop
        invariant
            pos <= at,
            at > pos ==> at <= bytes.len(),
            binary_decode_fields(bytes@, pos as int) == join(
                view_fields(&fields),
                (at - pos) as nat,
                binary_decode_fields(bytes@, at as int),
            ),
        decreases remaining(bytes@, at as int),
    {
        let ghost before = view_fields(&fields);
        let (t, id) = match read_binary_field_header(bytes, at) {
            Err(e) => {
                return Err(e);
            },
            Ok(None) => {
                assert(before + Seq::<(i16, Val)>::empty() =~= before);
                return Ok((fields, at + 1));
            },
            Ok(Some(h)) => h,
        };
        let (value, next) = match decode_binary(t, bytes, at + 3) {
            Err(e) => {
                return Err(e);
            },
            Ok(r) => r,
        };
        proof {
            let rest = binary_decode_fields(bytes@, next as int);
            if let Ok((more, len)) = rest {
                assert(before + (seq![(id, value@)] + more) =~= before.push((id, value@)) + more);
            }
        }
        fields.push((id, value));
        assert(view_fields(&fields) =~= before.push((id, value@)));
        at = next;
    }
}

/// Every type is the type of its own tag.
pub proof fn lemma_binary_tag(t: TType)
    ensures
        binary_type(binary_tag(t)) == Some(t),
        t != TType::Stop ==> binary_tag(t) != 0,
{
}

/// Reading back a length of at most 31 bits.
proof fn lemma_binary_size(bytes: Seq<u8>, pos: int, n: nat)
    requires
        holds_at(bytes, pos, be32(n as int)),
        n <= MAX_SIZE,
    ensures
        binary_size_at(bytes, pos) == Ok::<nat, DecodeError>(n),
{
    lemma_be_len(n as int);
    lemma_be32_at(bytes, pos, n as int);
    vstd::arithmetic::div_mod::lemma_small_mod(n, 0x1_0000_0000);
}

/// Decoding inverts encoding for the types without parts.
proof fn lemma_binary_roundtrip_plain(v: Val, bytes: Seq<u8>, pos: int)
    requires
        v.wf(),
        holds_at(bytes, pos, binary_encode(v)),
        !(v is ListOf || v is SetOf || v is MapOf || v is Struct),
    ensures
        binary_decode_plain(v.ttype(), bytes, pos) == Ok::<(Val, nat), DecodeError>(
            (v, binary_encode(v).len()),
        ),
{
    match v {
        Val::Bool(b) => {
            lemma_first_byte(bytes, pos, binary_encode(v));
        },
        Val::I8(x) => {
            lemma_first_byte(bytes, pos, binary_encode(v));
            lemma_signed_roundtrip(x as int, 0x100);
        },
        Val::I16(x) => {
            lemma_be_len(x as int);
            lemma_be16_at(bytes, pos, x as int);
            lemma_signed_roundtrip(x as int, 0x1_0000);
        },
        Val::I32(x) => {
            lemma_be_len(x as int);
            lemma_be32_at(bytes, pos, x as int);
            lemma_signed_roundtrip(x as int, 0x1_0000_0000);
        },
        Val::I64(x) => {
            lemma_be_len(x as int);
            lemma_be64_at(bytes, pos, x as int);
            lemma_signed_roundtrip(x as int, 0x1_0000_0000_0000_0000);
        },
        Val::Double(bits) => {
            lemma_be_len(bits as int);
            lemma_be64_at(bytes, pos, bits as int);
            vstd::arithmetic::div_mod::lemma_small_mod(bits as nat, 0x1_0000_0000_0000_0000);
        },
        Val::Uuid(u) => {
            lemma_be_len(u as int);
            lemma_be128_at(bytes, pos, u as int);
            vstd::arithmetic::div_mod::lemma_small_mod(
                u as nat,
                0x1_0000_0000_0000_0000_0000_0000_0000_0000nat,
            );
        },
        Val::Binary(b) => {
            lemma_be_len(b.len() as int);
            lemma_holds_concat(bytes, pos, be32(b.len() as int), b);
            lemma_binary_size(bytes, pos, b.len());
        },
        _ => {},
    }
}

/// Reading back the header of a list or set.
proof fn lemma_binary_list_head(t: TType, n: nat, bytes: Seq<u8>, pos: int)
    requires
        holds_at(bytes, pos, seq![binary_tag(t)] + be32(n as int)),
        n <= MAX_SIZE,
    ensures
        binary_list_header(bytes, pos) == Ok::<(TType, nat), DecodeError>((t, n)),
        (seq![binary_tag(t)] + be32(n as int)).len() == 5,
{
    lemma_be_len(n as int);
    lemma_holds_concat(bytes, pos, seq![binary_tag(t)], be32(n as int));
    lemma_first_byte(bytes, pos, seq![binary_tag(t)]);
    lemma_binary_tag(t);
    lemma_binary_size(bytes, pos + 1, n);
}

/// Reading back the header of a map.
proof fn lemma_binary_map_head(k: TType, w: TType, n: nat, bytes: Seq<u8>, pos: int)
    requires
        holds_at(bytes, pos, seq![binary_tag(k), binary_tag(w)] + be32(n as int)),
        n <= MAX_SIZE,
    ensures
        binary_map_header(bytes, pos) == Ok::<(TType, TType, nat), DecodeError>((k, w, n)),
        (seq![binary_tag(k), binary_tag(w)] + be32(n as int)).len() == 6,
{
    let tags = seq![binary_tag(k), binary_tag(w)];
    lemma_be_len(n as int);
    lemma_holds_concat(bytes, pos, tags, be32(n as int));
    assert(tags =~= seq![binary_tag(k)] + seq![binary_tag(w)]);
    lemma_holds_concat(bytes, pos, seq![binary_tag(k)], seq![binary_tag(w)]);
    lemma_first_byte(bytes, pos, seq![binary_tag(k)]);
    lemma_first_byte(bytes, pos + 1, seq![binary_tag(w)]);
    lemma_binary_tag(k);
    lemma_binary_tag(w);
    lemma_binary_size(bytes, pos + 2, n);
}

/// Decoding a list or set, given that its header reads back and its
/// elements decode.
proof fn lemma_binary_list_case(v: Val, t: TType, items: Seq<Val>, bytes: Seq<u8>, pos: int)
    requires
        v == Val::ListOf(t, items) || v == Val::SetOf(t, items),
        binary_list_header(bytes, pos) == Ok::<(TType, nat), DecodeError>((t, items.len())),
        binary_decode_items(t, bytes, pos + 5, items.len()) == Ok::<(Seq<Val>, nat), DecodeError>(
            (items, binary_encode_items(items, 0).len()),
        ),
    ensures
        binary_decode(v.ttype(), bytes, pos) == Ok::<(Val, nat), DecodeError>(
            (v, 5 + binary_encode_items(items, 0).len()),
        ),
{
}

/// Decoding a map, given that its header reads back and its entries decode.
proof fn lemma_binary_map_case(
    k: TType,
    w: TType,
    entries: Seq<(Val, Val)>,
    bytes: Seq<u8>,
    pos: int,
)
    requires
        binary_map_header(bytes, pos) == Ok::<(TType, TType, nat), DecodeError>(
            (k, w, entries.len()),
        ),
        binary_decode_entries(k, w, bytes, pos + 6, entries.len()) == Ok::<
            (Seq<(Val, Val)>, nat),
            DecodeError,
        >((entries, binary_encode_entries(entries, 0).len())),
    ensures
        binary_decode(TType::MapOf, bytes, pos) == Ok::<(Val, nat), DecodeError>(
            (Val::MapOf(k, w, entries), 6 + binary_encode_entries(entries, 0).len()),
        ),
{
}

/// Decoding a struct, given that its fields decode.
proof fn lemma_binary_struct_case(fields: Seq<(i16, Val)>, bytes: Seq<u8>, pos: int)
    requires
        binary_decode_fields(bytes, pos) == Ok::<(Seq<(i16, Val)>, nat), DecodeError>(
            (fields, binary_encode_fields(fields, 0).len()),
        ),
    ensures
        binary_decode(TType::Struct, bytes, pos) == Ok::<(Val, nat), DecodeError>(
            (Val::Struct(fields), binary_encode_fields(fields, 0).len()),
        ),
{
}

/// Decoding a value without parts is decoding its type.
proof fn lemma_binary_plain_case(v: Val, bytes: Seq<u8>, pos: int)
    requires
        !(v is ListOf || v is SetOf || v is MapOf || v is Struct),
    ensures
        binary_decode(v.ttype(), bytes, pos) == binary_decode_plain(v.ttype(), bytes, pos),
{
}

/// Decoding inverts encoding: where `bytes` holds the encoding of a
/// well-formed value at `pos`, decoding the value's type at `pos` yields
/// the value and takes exactly the bytes of the encoding, whatever follows.
pub proof fn lemma_binary_roundtrip(v: Val, bytes: Seq<u8>, pos: int)
    requires
        v.wf(),
        holds_at(bytes, pos, binary_encode(v)),
    ensures
        binary_decode(v.ttype(), bytes, pos) == Ok::<(Val, nat), DecodeError>(
            (v, binary_encode(v).len()),
        ),
    decreases v, 0nat,
{
    lemma_wf_unfold(v);
    match v {
        Val::ListOf(t, items) => {
            let head = seq![binary_tag(t)] + be32(items.len() as int);
            lemma_holds_concat(bytes, pos, head, binary_encode_items(items, 0));
            lemma_binary_list_head(t, items.len(), bytes, pos);
            lemma_binary_roundtrip_items(t, items, 0, bytes, pos + 5);
            assert(items.subrange(0, items.len() as int) =~= items);
            lemma_binary_list_case(v, t, items, bytes, pos);
        },
        Val::SetOf(t, items) => {
            let head = seq![binary_tag(t)] + be32(items.len() as int);
            lemma_holds_concat(bytes, pos, head, binary_encode_items(items, 0));
            lemma_binary_list_head(t, items.len(), bytes, pos);
            lemma_binary_roundtrip_items(t, items, 0, bytes, pos + 5);
            assert(items.subrange(0, items.len() as int) =~= items);
            lemma_binary_list_case(v, t, items, bytes, pos);
        },
        Val::MapOf(k, w, entries) => {
            let head = seq![binary_tag(k), binary_tag(w)] + be32(entries.len() as int);
            lemma_holds_concat(bytes, pos, head, binary_encode_entries(entries, 0));
            lemma_binary_map_head(k, w, entries.len(), bytes, pos);
            lemma_binary_roundtrip_entries(k, w, entries, 0, bytes, pos + 6);
            assert(entries.subrange(0, entries.len() as int) =~= entries);
            lemma_binary_map_case(k, w, entries, bytes, pos);
        },
        Val::Struct(fields) => {
            lemma_binary_roundtrip_fields(fields, 0, bytes, pos);
            assert(fields.subrange(0, fields.len() as int) =~= fields);
            lemma_binary_struct_case(fields, bytes, pos);
        },
        _ => {
            lemma_binary_roundtrip_plain(v, bytes, pos);
            lemma_binary_plain_case(v, bytes, pos);
        },
    }
}

/// Decoding inverts encoding for the elements of a container, from the
/// element at `from` on.
pub proof fn lemma_binary_roundtrip_items(
    t: TType,
    items: Seq<Val>,
    from: int,
    bytes: Seq<u8>,
    pos: int,
)
    requires
        0 <= from <= items.len(),
        forall|i: int| from <= i < items.len() ==> (#[trigger] items[i]).ttype() == t && items[i].wf(),
        holds_at(bytes, pos, binary_encode_items(items, from)),
    ensures
        binary_decode_items(t, bytes, pos, (items.len() - from) as nat) == Ok::<
            (Seq<Val>, nat),
            DecodeError,
        >((items.subrange(from, items.len() as int), binary_encode_items(items, from).len())),
    decreases items, items.len() - from,
{
    if from < items.len() {
        let first = binary_encode(items[from]);
        lemma_holds_concat(bytes, pos, first, binary_encode_items(items, from + 1));
        lemma_binary_roundtrip(items[from], bytes, pos);
        lemma_binary_roundtrip_items(t, items, from + 1, bytes, pos + first.len());
        assert(seq![items[from]] + items.subrange(from + 1, items.len() as int)
            =~= items.subrange(from, items.len() as int));
    } else {
        assert(items.subrange(from, items.len() as int) =~= Seq::<Val>::empty());
    }
}

/// Decoding inverts encoding for the entries of a map, from the entry at
/// `from` on.
pub proof fn lemma_binary_roundtrip_entries(
    k: TType,
    w: TType,
    entries: Seq<(Val, Val)>,
    from: int,
    bytes: Seq<u8>,
    pos: int,
)
    requires
        0 <= from <= entries.len(),
        forall|i: int|
            from <= i < entries.len() ==> {
                &&& (#[trigger] entries[i]).0.ttype() == k
                &&& entries[i].0.wf()
                &&& entries[i].1.ttype() == w
                &&& entries[i].1.wf()
            },
        holds_at(bytes, pos, binary_encode_entries(entries, from)),
    ensures
        binary_decode_entries(k, w, bytes, pos, (entries.len() - from) as nat) == Ok::<
            (Seq<(Val, Val)>, nat),
            DecodeError,
        >(
            (
                entries.subrange(from, entries.len() as int),
                binary_encode_entries(entries, from).len(),
            ),
        ),
    decreases entries, entries.len() - from,
{
    if from < entries.len() {
        let key = binary_encode(entries[from].0);
        let value = binary_encode(entries[from].1);
        lemma_holds_concat(bytes, pos, key + value, binary_encode_entries(entries, from + 1));
        lemma_holds_concat(bytes, pos, key, value);
        lemma_binary_roundtrip(entries[from].0, bytes, pos);
        lemma_binary_roundtrip(entries[from].1, bytes, pos + key.len());
        lemma_binary_roundtrip_entries(k, w, entries, from + 1, bytes, pos + key.len() + value.len());
        assert(seq![entries[from]] + entries.subrange(from + 1, entries.len() as int)
            =~= entries.subrange(from, entries.len() as int));
    } else {
        assert(entries.subrange(from, entries.len() as int) =~= Seq::<(Val, Val)>::empty());
    }
}

/// Decoding inverts encoding for the fields of a struct, from the field at
/// `from` on.
pub proof fn lemma_binary_roundtrip_fields(
    fields: Seq<(i16, Val)>,
    from: int,
    bytes: Seq<u8>,
    pos: int,
)
    requires
        0 <= from <= fields.len(),
        forall|i: int| from <= i < fields.len() ==> (#[trigger] fields[i]).1.wf(),
        holds_at(bytes, pos, binary_encode_fields(fields, from)),
    ensures
        binary_decode_fields(bytes, pos) == Ok::<(Seq<(i16, Val)>, nat), DecodeError>(
            (fields.subrange(from, fields.len() as int), binary_encode_fields(fields, from).len()),
        ),
    decreases fields, fields.len() - from,
{
    if from < fields.len() {
        let id = fields[from].0;
        let value = fields[from].1;
        let tag = seq![binary_tag(value.ttype())];
        let body = binary_encode(value);
        lemma_be_len(id as int);
        lemma_holds_concat(bytes, pos, tag + be16(id as int) + body, binary_encode_fields(fields, from + 1));
        lemma_holds_concat(bytes, pos, tag + be16(id as int), body);
        lemma_holds_concat(bytes, pos, tag, be16(id as int));
        lemma_first_byte(bytes, pos, tag);
        lemma_binary_tag(value.ttype());
        lemma_be16_at(bytes, pos + 1, id as int);
        lemma_signed_roundtrip(id as int, 0x1_0000);
        lemma_binary_roundtrip(value, bytes, pos + 3);
        lemma_binary_roundtrip_fields(fields, from + 1, bytes, pos + 3 + body.len());
        assert(seq![fields[from]] + fields.subrange(from + 1, fields.len() as int)
            =~= fields.subrange(from, fields.len() as int));
    } else {
        lemma_first_byte(bytes, pos, seq![0u8]);
        assert(fields.subrange(from, fields.len() as int) =~= Seq::<(i16, Val)>::empty());
    }
}

/// What holds of a value `v` that was decoded as a `t` from `len` bytes at
/// `pos`: it is a well-formed `t`, and its bytes lie within `bytes`.
pub open spec fn decoded_well(t: TType, v: Val, bytes: Seq<u8>, pos: int, len: nat) -> bool {
    &&& v.ttype() == t
    &&& v.wf()
    &&& 1 <= len
    &&& pos + len <= bytes.len()
}

/// Whatever decodes is well-formed, so it can be encoded again: a value
/// that is decoded as a `t` is a `t`, each of its containers holds elements
/// of the type it declares, and it takes at least one byte and no byte
/// beyond the input.
pub proof fn lemma_binary_decoded(t: TType, bytes: Seq<u8>, pos: int)
    requires
        0 <= pos,
    ensures
        binary_decode(t, bytes, pos) matches Ok((v, len)) ==> decoded_well(t, v, bytes, pos, len),
    decreases remaining(bytes, pos), 1nat,
{
    match binary_decode(t, bytes, pos) {
        Ok((v, len)) => {
            match t {
                TType::ListOf => {
                    let (et, n) = binary_list_header(bytes, pos).unwrap();
                    lemma_binary_decoded_items(et, bytes, pos + 5, n);
                    lemma_wf_unfold(v);
                },
                TType::SetOf => {
                    let (et, n) = binary_list_header(bytes, pos).unwrap();
                    lemma_binary_decoded_items(et, bytes, pos + 5, n);
                    lemma_wf_unfold(v);
                },
                TType::MapOf => {
                    let (k, w, n) = binary_map_header(bytes, pos).unwrap();
                    lemma_binary_decoded_entries(k, w, bytes, pos + 6, n);
                    lemma_wf_unfold(v);
                },
                TType::Struct => {
                    lemma_binary_decoded_fields(bytes, pos);
                    lemma_wf_unfold(v);
                },
                _ => {},
            }
        },
        Err(_) => {},
    }
}

/// Whatever decodes as the elements of a container is well-formed.
pub proof fn lemma_binary_decoded_items(t: TType, bytes: Seq<u8>, pos: int, count: nat)
    requires
        0 <= pos <= bytes.len(),
        count <= MAX_SIZE,
    ensures
        binary_decode_items(t, bytes, pos, count) matches Ok((items, len)) ==> items.len() == count
            && items_wf(t, items) && pos + len <= bytes.len(),
    decreases remaining(bytes, pos), count + 2,
{
    if count > 0 {
        lemma_binary_decoded(t, bytes, pos);
        if let Ok((first, len)) = binary_decode(t, bytes, pos) {
            lemma_binary_decoded_items(t, bytes, pos + len, (count - 1) as nat);
        }
    }
}

/// Whatever decodes as the entries of a map is well-formed.
pub proof fn lemma_binary_decoded_entries(
    k: TType,
    w: TType,
    bytes: Seq<u8>,
    pos: int,
    count: nat,
)
    requires
        0 <= pos <= bytes.len(),
        count <= MAX_SIZE,
    ensures
        binary_decode_entries(k, w, bytes, pos, count) matches Ok((entries, len)) ==> entries.len()
            == count && entries_wf(k, w, entries) && pos + len <= bytes.len(),
    decreases remaining(bytes, pos), count + 2,
{
    if count > 0 {
        lemma_binary_decoded(k, bytes, pos);
        if let Ok((key, key_len)) = binary_decode(k, bytes, pos) {
            lemma_binary_decoded(w, bytes, pos + key_len);
            if let Ok((value, value_len)) = binary_decode(w, bytes, pos + key_len) {
                lemma_binary_decoded_entries(
                    k,
                    w,
                    bytes,
                    pos + key_len + value_len,
                    (count - 1) as nat,
                );
            }
        }
    }
}

/// Whatever decodes as the fields of a struct is well-formed.
pub proof fn lemma_binary_decoded_fields(bytes: Seq<u8>, pos: int)
    requires
        0 <= pos,
    ensures
        binary_decode_fields(bytes, pos) matches Ok((fields, len)) ==> fields_wf(fields) && 1
            <= len && pos + len <= bytes.len(),
    decreases remaining(bytes, pos), 0nat,
{
    if let Ok(Some((t, id))) = binary_field_header(bytes, pos) {
        lemma_binary_decoded(t, bytes, pos + 3);
        if let Ok((value, len)) = binary_decode(t, bytes, pos + 3) {
            lemma_binary_decoded_fields(bytes, pos + 3 + len);
        }
    }
}

} // verus!
