//! The compact protocol: variable-length zig-zag integers, field headers that
//! pack a type nibble with the distance to the previous field id, boolean
//! fields folded into their header, containers with type and small size in
//! one byte.
//!
//! Two pieces of state shape the encoding of a struct, and both live in the
//! function that walks its fields: the id of the field written last, from
//! which the next header takes its delta and which starts at zero in every
//! nested struct; and whether a boolean stands in a field, where its value
//! is the header's type nibble, or in a container, where it is a byte.

use crate::binary::{decoded_well, fits, join, remaining};
use crate::bytes::{
    be128, be128_at, copy_range, has_bytes, holds_at, i8_of_word, le64, le64_at, lemma_be128_at,
    lemma_be_len, lemma_first_byte, lemma_holds_concat, lemma_le64_at, lemma_signed_roundtrip, push_be128,
    push_bytes, push_le64, read_be128, read_le64, signed_of, unsigned_of, word_of_i8,
};
use crate::error::DecodeError;
use crate::value::{
    entries_wf, fields_wf, items_wf, lemma_wf_unfold, view_entries, view_fields, view_items, TType,
    Val, Value, MAX_SIZE,
};
use crate::varint::{
    lemma_pow128, lemma_varint_len, lemma_varint_roundtrip, push_varint, read_varint32,
    read_varint64, varint, varint32_at, varint64_at,
};
use crate::zigzag::{lemma_zigzag_roundtrip, unzigzag, unzigzag32, unzigzag64, zigzag, zigzag32, zigzag64};
use vstd::prelude::*;

verus! {

/// The nibble that stands for a type. A boolean field uses this nibble for
/// `true` and the next one for `false`.
pub open spec fn compact_tag(t: TType) -> u8 {
    match t {
        TType::Stop => 0,
        TType::Bool => 1,
        TType::I8 => 3,
        TType::I16 => 4,
        TType::I32 => 5,
        TType::I64 => 6,
        TType::Double => 7,
        TType::Binary => 8,
        TType::ListOf => 9,
        TType::SetOf => 10,
        TType::MapOf => 11,
        TType::Struct => 12,
        TType::Uuid => 13,
    }
}

/// The type that a nibble stands for, if any.
pub open spec fn compact_type(n: u8) -> Option<TType> {
    if n == 0 {
        Some(TType::Stop)
    } else if n == 1 || n == 2 {
        Some(TType::Bool)
    } else if n == 3 {
        Some(TType::I8)
    } else if n == 4 {
        Some(TType::I16)
    } else if n == 5 {
        Some(TType::I32)
    } else if n == 6 {
        Some(TType::I64)
    } else if n == 7 {
        Some(TType::Double)
    } else if n == 8 {
        Some(TType::Binary)
    } else if n == 9 {
        Some(TType::ListOf)
    } else if n == 10 {
        Some(TType::SetOf)
    } else if n == 11 {
        Some(TType::MapOf)
    } else if n == 12 {
        Some(TType::Struct)
    } else if n == 13 {
        Some(TType::Uuid)
    } else {
        None
    }
}

/// The nibble in the header of a field that holds `v`: the type's, but for
/// a boolean, whose value it tells.
pub open spec fn compact_field_nibble(v: Val) -> u8 {
    match v {
        Val::Bool(b) => if b {
            1
        } else {
            2
        },
        _ => compact_tag(v.ttype()),
    }
}

/// The header of a field with id `id` and type nibble `nibble` that follows
/// a field with id `last`: one byte where the id lies 1 to 15 above `last`,
/// else the nibble and the id in full.
pub open spec fn compact_field_header(last: int, id: int, nibble: u8) -> Seq<u8> {
    if 1 <= id - last <= 15 {
        seq![((id - last) * 16 + nibble) as u8]
    } else {
        seq![nibble] + varint(zigzag(id) as nat)
    }
}

/// The header of a list or set of `n` elements of type `t`: one byte for up
/// to 14 elements, else the count behind it.
pub open spec fn compact_list_header(t: TType, n: nat) -> Seq<u8> {
    if n <= 14 {
        seq![(n * 16 + compact_tag(t)) as u8]
    } else {
        seq![(0xF0 + compact_tag(t)) as u8] + varint(n)
    }
}

/// The header of a map of `n` entries from `k` to `w`: the count, and the
/// two types unless the map is empty.
pub open spec fn compact_map_header(k: TType, w: TType, n: nat) -> Seq<u8> {
    if n == 0 {
        seq![0u8]
    } else {
        varint(n) + seq![(compact_tag(k) * 16 + compact_tag(w)) as u8]
    }
}

/// The encoding of a value that stands alone or in a container.
pub open spec fn compact_encode(v: Val) -> Seq<u8>
    decreases v,
{
    match v {
        Val::ListOf(t, items) => compact_list_header(t, items.len()) + compact_encode_items(
            items,
            0,
        ),
        Val::SetOf(t, items) => compact_list_header(t, items.len()) + compact_encode_items(
            items,
            0,
        ),
        Val::MapOf(k, w, entries) => compact_map_header(k, w, entries.len())
            + compact_encode_entries(entries, 0),
        Val::Struct(fields) => compact_encode_fields(fields, 0, 0),
        _ => compact_encode_plain(v),
    }
}

/// The encoding of a value without parts that stands alone or in a
/// container.
pub open spec fn compact_encode_plain(v: Val) -> Seq<u8> {
    match v {
        Val::Bool(b) => seq![if b { 1u8 } else { 2u8 }],
        Val::I8(x) => seq![unsigned_of(x as int, 0x100) as u8],
        Val::I16(x) => varint(zigzag(x as int) as nat),
        Val::I32(x) => varint(zigzag(x as int) as nat),
        Val::I64(x) => varint(zigzag(x as int) as nat),
        Val::Double(bits) => le64(bits as int),
        Val::Binary(bytes) => varint(bytes.len()) + bytes,
        Val::Uuid(u) => be128(u as int),
        _ => Seq::empty(),
    }
}

/// The encodings of `items[from..]`, one after the other.
pub open spec fn compact_encode_items(items: Seq<Val>, from: int) -> Seq<u8>
    decreases items, items.len() - from,
{
    if 0 <= from < items.len() {
        compact_encode(items[from]) + compact_encode_items(items, from + 1)
    } else {
        Seq::empty()
    }
}

/// The encodings of `entries[from..]`, each key before its value.
pub open spec fn compact_encode_entries(entries: Seq<(Val, Val)>, from: int) -> Seq<u8>
    decreases entries, entries.len() - from,
{
    if 0 <= from < entries.len() {
        compact_encode(entries[from].0) + compact_encode(entries[from].1) + compact_encode_entries(
            entries,
            from + 1,
        )
    } else {
        Seq::empty()
    }
}

/// The encodings of `fields[from..]` behind a field with id `last`, each
/// behind its header, and the stop byte. A boolean is all in its header.
pub open spec fn compact_encode_fields(fields: Seq<(i16, Val)>, from: int, last: i16) -> Seq<u8>
    decreases fields, fields.len() - from,
{
    if 0 <= from < fields.len() {
        compact_field_header(
            last as int,
            fields[from].0 as int,
            compact_field_nibble(fields[from].1),
        ) + (if fields[from].1 is Bool {
            Seq::empty()
        } else {
            compact_encode(fields[from].1)
        }) + compact_encode_fields(
            fields,
            from + 1,
            fields[from].0,
        )
    } else {
        seq![0u8]
    }
}

/// The 16-bit signed number at `pos`, and how many bytes it takes.
pub open spec fn compact_i16_at(bytes: Seq<u8>, pos: int) -> Result<(i16, nat), DecodeError> {
    match varint32_at(bytes, pos) {
        Err(e) => Err(e),
        Ok((u, len)) => if i16::MIN <= unzigzag(u as int) <= i16::MAX {
            Ok((unzigzag(u as int) as i16, len))
        } else {
            Err(DecodeError::BadVarint)
        },
    }
}

/// The length or count at `pos`, and how many bytes it takes.
pub open spec fn compact_size_at(bytes: Seq<u8>, pos: int) -> Result<(nat, nat), DecodeError> {
    match varint32_at(bytes, pos) {
        Err(e) => Err(e),
        Ok((n, len)) => if n > MAX_SIZE {
            Err(DecodeError::BadSize)
        } else {
            Ok((n, len))
        },
    }
}

/// The element type and count of the list or set header at `pos`, and how
/// many bytes the header takes.
pub open spec fn compact_list_header_at(bytes: Seq<u8>, pos: int) -> Result<
    (TType, nat, nat),
    DecodeError,
> {
    if !fits(bytes, pos, 1) {
        Err(DecodeError::Truncated)
    } else {
        match compact_type(bytes[pos] % 16) {
            None => Err(DecodeError::BadType),
            Some(t) => if bytes[pos] / 16 != 15 {
                Ok((t, (bytes[pos] / 16) as nat, 1))
            } else {
                match compact_size_at(bytes, pos + 1) {
                    Err(e) => Err(e),
                    Ok((n, len)) => Ok((t, n, 1 + len)),
                }
            },
        }
    }
}

/// The key type, value type and count of the map header at `pos`, and how
/// many bytes the header takes. An empty map states no types: it is read
/// as a map from `Stop` to `Stop`.
pub open spec fn compact_map_header_at(bytes: Seq<u8>, pos: int) -> Result<
    (TType, TType, nat, nat),
    DecodeError,
> {
    match compact_size_at(bytes, pos) {
        Err(e) => Err(e),
        Ok((n, len)) => if n == 0 {
            Ok((TType::Stop, TType::Stop, 0, len))
        } else if !fits(bytes, pos + len, 1) {
            Err(DecodeError::Truncated)
        } else {
            match compact_type(bytes[pos + len] / 16) {
                None => Err(DecodeError::BadType),
                Some(k) => match compact_type(bytes[pos + len] % 16) {
                    None => Err(DecodeError::BadType),
                    Some(w) => Ok((k, w, n, len + 1)),
                },
            }
        },
    }
}

/// The field header at `pos` behind a field with id `last`: `None` for the
/// stop byte, else the type nibble and the id of the field, and how many
/// bytes the header takes.
pub open spec fn compact_field_header_at(bytes: Seq<u8>, pos: int, last: i16) -> Result<
    Option<(u8, i16, nat)>,
    DecodeError,
> {
    if !fits(bytes, pos, 1) {
        Err(DecodeError::Truncated)
    } else if bytes[pos] % 16 == 0 {
        Ok(None)
    } else if compact_type(bytes[pos] % 16) is None {
        Err(DecodeError::BadType)
    } else if bytes[pos] / 16 != 0 {
        if last + bytes[pos] / 16 > i16::MAX {
            Err(DecodeError::BadFieldId)
        } else {
            Ok(Some((bytes[pos] % 16, (last + bytes[pos] / 16) as i16, 1)))
        }
    } else {
        match compact_i16_at(bytes, pos + 1) {
            Err(e) => Err(e),
            Ok((id, len)) => Ok(Some((bytes[pos] % 16, id, 1 + len))),
        }
    }
}

/// The value of a type without parts that starts at `pos`, alone or in a
/// container, and how many bytes it takes.
pub open spec fn compact_decode_plain(t: TType, bytes: Seq<u8>, pos: int) -> Result<
    (Val, nat),
    DecodeError,
> {
    match t {
        TType::Bool => if !fits(bytes, pos, 1) {
            Err(DecodeError::Truncated)
        } else if bytes[pos] == 1 {
            Ok((Val::Bool(true), 1))
        } else if bytes[pos] == 0 || bytes[pos] == 2 {
            Ok((Val::Bool(false), 1))
        } else {
            Err(DecodeError::BadBool)
        },
        TType::I8 => if fits(bytes, pos, 1) {
            Ok((Val::I8(signed_of(bytes[pos] as int, 0x100) as i8), 1))
        } else {
            Err(DecodeError::Truncated)
        },
        TType::I16 => match compact_i16_at(bytes, pos) {
            Err(e) => Err(e),
            Ok((x, len)) => Ok((Val::I16(x), len)),
        },
        TType::I32 => match varint32_at(bytes, pos) {
            Err(e) => Err(e),
            Ok((u, len)) => Ok((Val::I32(unzigzag(u as int) as i32), len)),
        },
        TType::I64 => match varint64_at(bytes, pos) {
            Err(e) => Err(e),
            Ok((u, len)) => Ok((Val::I64(unzigzag(u as int) as i64), len)),
        },
        TType::Double => if fits(bytes, pos, 8) {
            Ok((Val::Double(le64_at(bytes, pos) as u64), 8))
        } else {
            Err(DecodeError::Truncated)
        },
        TType::Uuid => if fits(bytes, pos, 16) {
            Ok((Val::Uuid(be128_at(bytes, pos) as u128), 16))
        } else {
            Err(DecodeError::Truncated)
        },
        TType::Binary => match compact_size_at(bytes, pos) {
            Err(e) => Err(e),
            Ok((n, len)) => if fits(bytes, pos + len, n as int) {
                Ok((Val::Binary(bytes.subrange(pos + len, pos + len + n)), len + n))
            } else {
                Err(DecodeError::Truncated)
            },
        },
        _ => Err(DecodeError::BadType),
    }
}

/// The value of type `t` that starts at `pos`, alone or in a container, and
/// how many bytes it takes.
pub open spec fn compact_decode(t: TType, bytes: Seq<u8>, pos: int) -> Result<
    (Val, nat),
    DecodeError,
>
    decreases remaining(bytes, pos), 1nat,
{
    match t {
        TType::ListOf => match compact_list_header_at(bytes, pos) {
            Err(e) => Err(e),
            Ok((et, n, head)) => match compact_decode_items(et, bytes, pos + head, n) {
                Err(e) => Err(e),
                Ok((items, len)) => Ok((Val::ListOf(et, items), head + len)),
            },
        },
        TType::SetOf => match compact_list_header_at(bytes, pos) {
            Err(e) => Err(e),
            Ok((et, n, head)) => match compact_decode_items(et, bytes, pos + head, n) {
                Err(e) => Err(e),
                Ok((items, len)) => Ok((Val::SetOf(et, items), head + len)),
            },
        },
        TType::MapOf => match compact_map_header_at(bytes, pos) {
            Err(e) => Err(e),
            Ok((k, w, n, head)) => match compact_decode_entries(k, w, bytes, pos + head, n) {
                Err(e) => Err(e),
                Ok((entries, len)) => Ok((Val::MapOf(k, w, entries), head + len)),
            },
        },
        TType::Struct => match compact_decode_fields(bytes, pos, 0) {
            Err(e) => Err(e),
            Ok((fields, len)) => Ok((Val::Struct(fields), len)),
        },
        _ => compact_decode_plain(t, bytes, pos),
    }
}

/// The `count` values of type `t` that start at `pos`, and how many bytes
/// they take.
pub open spec fn compact_decode_items(t: TType, bytes: Seq<u8>, pos: int, count: nat) -> Result<
    (Seq<Val>, nat),
    DecodeError,
>
    decreases remaining(bytes, pos), count + 2,
{
    if count == 0 {
        Ok((Seq::empty(), 0))
    } else {
        match compact_decode(t, bytes, pos) {
            Err(e) => Err(e),
            Ok((first, len)) => match compact_decode_items(
                t,
                bytes,
                pos + len,
                (count - 1) as nat,
            ) {
                Err(e) => Err(e),
                Ok((rest, rest_len)) => Ok((seq![first] + rest, len + rest_len)),
            },
        }
    }
}

/// The `count` entries from `k` to `w` that start at `pos`, and how many
/// bytes they take.
pub open spec fn compact_decode_entries(
    k: TType,
    w: TType,
    bytes: Seq<u8>,
    pos: int,
    count: nat,
) -> Result<(Seq<(Val, Val)>, nat), DecodeError>
    decreases remaining(bytes, pos), count + 2,
{
    if count == 0 {
        Ok((Seq::empty(), 0))
    } else {
        match compact_decode(k, bytes, pos) {
            Err(e) => Err(e),
            Ok((key, key_len)) => match compact_decode(w, bytes, pos + key_len) {
                Err(e) => Err(e),
                Ok((value, value_len)) => match compact_decode_entries(
                    k,
                    w,
                    bytes,
                    pos + key_len + value_len,
                    (count - 1) as nat,
                ) {
                    Err(e) => Err(e),
                    Ok((rest, rest_len)) => Ok(
                        (seq![(key, value)] + rest, key_len + value_len + rest_len),
                    ),
                },
            },
        }
    }
}

/// The fields that start at `pos` behind a field with id `last`, up to the
/// stop byte, and how many bytes they take, the stop byte included.
pub open spec fn compact_decode_fields(bytes: Seq<u8>, pos: int, last: i16) -> Result<
    (Seq<(i16, Val)>, nat),
    DecodeError,
>
    decreases remaining(bytes, pos), 0nat,
{
    match compact_field_header_at(bytes, pos, last) {
        Err(e) => Err(e),
        Ok(None) => Ok((Seq::empty(), 1)),
        Ok(Some((nibble, id, head))) => {
            let value = if nibble == 1 {
                Ok((Val::Bool(true), 0nat))
            } else if nibble == 2 {
                Ok((Val::Bool(false), 0nat))
            } else {
                compact_decode(compact_type(nibble).unwrap(), bytes, pos + head)
            };
            match value {
                Err(e) => Err(e),
                Ok((v, len)) => match compact_decode_fields(bytes, pos + head + len, id) {
                    Err(e) => Err(e),
                    Ok((rest, rest_len)) => Ok((seq![(id, v)] + rest, head + len + rest_len)),
                },
            }
        },
    }
}

/// The nibble that stands for a type.
pub fn compact_tag_of(t: TType) -> (n: u8)
    ensures
        n == compact_tag(t),
        n <= 13,
{
    match t {
        TType::Stop => 0,
        TType::Bool => 1,
        TType::I8 => 3,
        TType::I16 => 4,
        TType::I32 => 5,
        TType::I64 => 6,
        TType::Double => 7,
        TType::Binary => 8,
        TType::ListOf => 9,
        TType::SetOf => 10,
        TType::MapOf => 11,
        TType::Struct => 12,
        TType::Uuid => 13,
    }
}

/// The type that a nibble stands for, if any.
pub fn compact_type_of(n: u8) -> (t: Option<TType>)
    ensures
        t == compact_type(n),
{
    match n {
        0 => Some(TType::Stop),
        1 | 2 => Some(TType::Bool),
        3 => Some(TType::I8),
        4 => Some(TType::I16),
        5 => Some(TType::I32),
        6 => Some(TType::I64),
        7 => Some(TType::Double),
        8 => Some(TType::Binary),
        9 => Some(TType::ListOf),
        10 => Some(TType::SetOf),
        11 => Some(TType::MapOf),
        12 => Some(TType::Struct),
        13 => Some(TType::Uuid),
        _ => None,
    }
}

/// Appends the header of a field with id `id` and type nibble `nibble` that
/// follows a field with id `last`.
pub fn push_compact_field_header(out: &mut Vec<u8>, last: i16, id: i16, nibble: u8)
    requires
        nibble <= 15,
    ensures
        final(out)@ == old(out)@ + compact_field_header(last as int, id as int, nibble),
{
    let delta: i32 = id as i32 - last as i32;
    if 1 <= delta && delta <= 15 {
        out.push((delta * 16) as u8 + nibble);
        assert(out@ =~= old(out)@ + compact_field_header(last as int, id as int, nibble));
    } else {
        out.push(nibble);
        push_varint(out, zigzag32(id as i32) as u64);
        assert(out@ =~= old(out)@ + compact_field_header(last as int, id as int, nibble));
    }
}

/// Appends the header of a list or set of `n` elements of type `t`.
pub fn push_compact_list_header(out: &mut Vec<u8>, t: TType, n: usize)
    requires
        n <= MAX_SIZE,
    ensures
        final(out)@ == old(out)@ + compact_list_header(t, n as nat),
{
    let tag = compact_tag_of(t);
    if n <= 14 {
        out.push((n as u8) * 16 + tag);
        assert(out@ =~= old(out)@ + compact_list_header(t, n as nat));
    } else {
        out.push(0xF0 + tag);
        push_varint(out, n as u64);
        assert(out@ =~= old(out)@ + compact_list_header(t, n as nat));
    }
}

/// Appends the header of a map of `n` entries from `k` to `w`.
pub fn push_compact_map_header(out: &mut Vec<u8>, k: TType, w: TType, n: usize)
    requires
        n <= MAX_SIZE,
    ensures
        final(out)@ == old(out)@ + compact_map_header(k, w, n as nat),
{
    if n == 0 {
        out.push(0);
        assert(out@ =~= old(out)@ + compact_map_header(k, w, n as nat));
    } else {
        push_varint(out, n as u64);
        out.push(compact_tag_of(k) * 16 + compact_tag_of(w));
        assert(out@ =~= old(out)@ + compact_map_header(k, w, n as nat));
    }
}

/// Appends the encoding of a value without parts that stands alone or in a
/// container.
pub fn encode_compact_plain(v: &Value, out: &mut Vec<u8>)
    requires
        v@.wf(),
        !(v@ is ListOf || v@ is SetOf || v@ is MapOf || v@ is Struct),
    ensures
        final(out)@ == old(out)@ + compact_encode_plain(v@),
{
    match v {
        Value::Bool(b) => {
            out.push(if *b { 1 } else { 2 });
            assert(out@ =~= old(out)@ + compact_encode_plain(v@));
        },
        Value::I8(x) => {
            out.push(word_of_i8(*x));
            assert(out@ =~= old(out)@ + compact_encode_plain(v@));
        },
        Value::I16(x) => {
            push_varint(out, zigzag32(*x as i32) as u64);
        },
        Value::I32(x) => {
            push_varint(out, zigzag32(*x) as u64);
        },
        Value::I64(x) => {
            push_varint(out, zigzag64(*x));
        },
        Value::Double(bits) => {
            push_le64(out, *bits);
        },
        Value::Uuid(u) => {
            push_be128(out, *u);
        },
        Value::Binary(bytes) => {
            push_varint(out, bytes.len() as u64);
            push_bytes(out, bytes.as_slice());
            assert(out@ =~= old(out)@ + compact_encode_plain(v@));
        },
        _ => {},
    }
}

/// Appends the encoding of a value that stands alone or in a container.
pub fn encode_compact(v: &Value, out: &mut Vec<u8>)
    requires
        v@.wf(),
    ensures
        final(out)@ == old(out)@ + compact_encode(v@),
    decreases v,
{
    proof {
        lemma_wf_unfold(v@);
    }
    match v {
        Value::ListOf(t, items) => {
            assert(view_items(items).len() == items.len());
            push_compact_list_header(out, *t, items.len());
            assert(out@ + compact_encode_items(view_items(items), 0) =~= old(out)@
                + compact_encode(v@));
            encode_compact_items(items, out);
        },
        Value::SetOf(t, items) => {
            assert(view_items(items).len() == items.len());
            push_compact_list_header(out, *t, items.len());
            assert(out@ + compact_encode_items(view_items(items), 0) =~= old(out)@
                + compact_encode(v@));
            encode_compact_items(items, out);
        },
        Value::MapOf(k, w, entries) => {
            assert(view_entries(entries).len() == entries.len());
            push_compact_map_header(out, *k, *w, entries.len());
            assert(out@ + compact_encode_entries(view_entries(entries), 0) =~= old(out)@
                + compact_encode(v@));
            encode_compact_entries(entries, out);
        },
        Value::Struct(fields) => {
            encode_compact_fields(fields, out);
        },
        _ => {
            encode_compact_plain(v, out);
        },
    }
}

/// Appends the encodings of `items`, one after the other.
#[verifier::loop_isolation(false)]
fn encode_compact_items(items: &Vec<Value>, out: &mut Vec<u8>)
    requires
        forall|i: int| 0 <= i < items.len() ==> (#[trigger] view_items(items)[i]).wf(),
    ensures
        final(out)@ == old(out)@ + compact_encode_items(view_items(items), 0),
    decreases items,
{
    let ghost model = view_items(items);
    let mut i: usize = 0;
    while i < items.len()
        invariant
            i <= items.len(),
            out@ + compact_encode_items(model, i as int) == old(out)@ + compact_encode_items(
                model,
                0,
            ),
        decreases items.len() - i,
    {
        let ghost before = out@;
        assert(model[i as int] == items[i as int]@);
        encode_compact(&items[i], out);
        assert(out@ + compact_encode_items(model, i + 1) =~= before + compact_encode_items(
            model,
            i as int,
        ));
        i += 1;
    }
    assert(out@ + compact_encode_items(model, i as int) =~= out@);
}

/// Appends the encodings of `entries`, each key before its value.
#[verifier::loop_isolation(false)]
fn encode_compact_entries(entries: &Vec<(Value, Value)>, out: &mut Vec<u8>)
    requires
        forall|i: int|
            0 <= i < entries.len() ==> (#[trigger] view_entries(entries)[i]).0.wf() && view_entries(
                entries,
            )[i].1.wf(),
    ensures
        final(out)@ == old(out)@ + compact_encode_entries(view_entries(entries), 0),
    decreases entries,
{
    let ghost model = view_entries(entries);
    let mut i: usize = 0;
    while i < entries.len()
        invariant
            i <= entries.len(),
            out@ + compact_encode_entries(model, i as int) == old(out)@ + compact_encode_entries(
                model,
                0,
            ),
        decreases entries.len() - i,
    {
        let ghost before = out@;
        assert(model[i as int] == (entries[i as int].0@, entries[i as int].1@));
        encode_compact(&entries[i].0, out);
        encode_compact(&entries[i].1, out);
        assert(out@ + compact_encode_entries(model, i + 1) =~= before + compact_encode_entries(
            model,
            i as int,
        ));
        i += 1;
    }
    assert(out@ + compact_encode_entries(model, i as int) =~= out@);
}

/// Appends the encodings of the fields of a struct, each behind its header,
/// and the stop byte. The id written last starts at zero and is kept here,
/// so a nested struct neither sees nor disturbs it.
#[verifier::loop_isolation(false)]
pub fn encode_compact_fields(fields: &Vec<(i16, Value)>, out: &mut Vec<u8>)
    requires
        forall|i: int| 0 <= i < fields.len() ==> (#[trigger] view_fields(fields)[i]).1.wf(),
    ensures
        final(out)@ == old(out)@ + compact_encode_fields(view_fields(fields), 0, 0),
    decreases fields,
{
    let ghost model = view_fields(fields);
    let mut last: i16 = 0;
    let mut i: usize = 0;
    while i < fields.len()
        invariant
            i <= fields.len(),
            out@ + compact_encode_fields(model, i as int, last) == old(out)@
                + compact_encode_fields(model, 0, 0),
        decreases fields.len() - i,
    {
        let ghost before = out@;
        assert(model[i as int] == (fields[i as int].0, fields[i as int].1@));
        let id = fields[i].0;
        match &fields[i].1 {
            Value::Bool(b) => {
                push_compact_field_header(out, last, id, if *b { 1 } else { 2 });
            },
            value => {
                push_compact_field_header(out, last, id, compact_tag_of(value.ttype()));
                encode_compact(value, out);
            },
        }
        assert(out@ + compact_encode_fields(model, i + 1, id) =~= before + compact_encode_fields(
            model,
            i as int,
            last,
        ));
        last = id;
        i += 1;
    }
    let ghost before = out@;
    out.push(0);
    assert(out@ =~= before + compact_encode_fields(model, i as int, last));
}

/// Reads the 16-bit signed number at `pos`.
pub fn read_compact_i16(bytes: &[u8], pos: usize) -> (r: Result<(i16, usize), DecodeError>)
    ensures
        match r {
            Ok((x, next)) => compact_i16_at(bytes@, pos as int) == Ok::<(i16, nat), DecodeError>(
                (x, (next - pos) as nat),
            ) && pos < next <= bytes.len(),
            Err(e) => compact_i16_at(bytes@, pos as int) == Err::<(i16, nat), DecodeError>(e),
        },
{
    match read_varint32(bytes, pos) {
        Err(e) => Err(e),
        Ok((u, next)) => {
            let x = unzigzag32(u);
            if -0x8000 <= x && x <= 0x7FFF {
                Ok((x as i16, next))
            } else {
                Err(DecodeError::BadVarint)
            }
        },
    }
}

/// Reads the length or count at `pos`.
pub fn read_compact_size(bytes: &[u8], pos: usize) -> (r: Result<(usize, usize), DecodeError>)
    ensures
        match r {
            Ok((n, next)) => compact_size_at(bytes@, pos as int) == Ok::<(nat, nat), DecodeError>(
                (n as nat, (next - pos) as nat),
            ) && pos < next <= bytes.len() && n <= MAX_SIZE,
            Err(e) => compact_size_at(bytes@, pos as int) == Err::<(nat, nat), DecodeError>(e),
        },
{
    match read_varint32(bytes, pos) {
        Err(e) => Err(e),
        Ok((n, next)) => {
            if n > 0x7FFF_FFFF {
                Err(DecodeError::BadSize)
            } else {
                Ok((n as usize, next))
            }
        },
    }
}

/// Reads the list or set header at `pos`: the element type, the count and
/// the position behind the header.
pub fn read_compact_list_header(bytes: &[u8], pos: usize) -> (r: Result<
    (TType, usize, usize),
    DecodeError,
>)
    ensures
        match r {
            Ok((t, n, next)) => compact_list_header_at(bytes@, pos as int) == Ok::<
                (TType, nat, nat),
                DecodeError,
            >((t, n as nat, (next - pos) as nat)) && pos < next <= bytes.len() && n <= MAX_SIZE,
            Err(e) => compact_list_header_at(bytes@, pos as int) == Err::<
                (TType, nat, nat),
                DecodeError,
            >(e),
        },
{
    if !has_bytes(bytes, pos, 1) {
        return Err(DecodeError::Truncated);
    }
    let b = bytes[pos];
    let t = match compact_type_of(b % 16) {
        Some(t) => t,
        None => {
            return Err(DecodeError::BadType);
        },
    };
    if b / 16 != 15 {
        Ok((t, (b / 16) as usize, pos + 1))
    } else {
        match read_compact_size(bytes, pos + 1) {
            Err(e) => Err(e),
            Ok((n, next)) => Ok((t, n, next)),
        }
    }
}

/// Reads the map header at `pos`: the key type, the value type, the count
/// and the position behind the header.
pub fn read_compact_map_header(bytes: &[u8], pos: usize) -> (r: Result<
    (TType, TType, usize, usize),
    DecodeError,
>)
    ensures
        match r {
            Ok((k, w, n, next)) => compact_map_header_at(bytes@, pos as int) == Ok::<
                (TType, TType, nat, nat),
                DecodeError,
            >((k, w, n as nat, (next - pos) as nat)) && pos < next <= bytes.len() && n <= MAX_SIZE,
            Err(e) => compact_map_header_at(bytes@, pos as int) == Err::<
                (TType, TType, nat, nat),
                DecodeError,
            >(e),
        },
{
    let (n, next) = match read_compact_size(bytes, pos) {
        Err(e) => {
            return Err(e);
        },
        Ok(r) => r,
    };
    if n == 0 {
        return Ok((TType::Stop, TType::Stop, 0, next));
    }
    if !has_bytes(bytes, next, 1) {
        return Err(DecodeError::Truncated);
    }
    let b = bytes[next];
    let k = match compact_type_of(b / 16) {
        Some(t) => t,
        None => {
            return Err(DecodeError::BadType);
        },
    };
    let w = match compact_type_of(b % 16) {
        Some(t) => t,
        None => {
            return Err(DecodeError::BadType);
        },
    };
    Ok((k, w, n, next + 1))
}

/// Reads the field header at `pos` behind a field with id `last`: `None`
/// for the stop byte, else the type nibble, the id of the field and the
/// position behind the header.
pub fn read_compact_field_header(bytes: &[u8], pos: usize, last: i16) -> (r: Result<
    Option<(u8, i16, usize)>,
    DecodeError,
>)
    ensures
        match r {
            Ok(Some((nibble, id, next))) => compact_field_header_at(bytes@, pos as int, last)
                == Ok::<Option<(u8, i16, nat)>, DecodeError>(
                Some((nibble, id, (next - pos) as nat)),
            ) && pos < next <= bytes.len() && 1 <= nibble <= 13,
            Ok(None) => compact_field_header_at(bytes@, pos as int, last) == Ok::<
                Option<(u8, i16, nat)>,
                DecodeError,
            >(None) && pos < bytes.len(),
            Err(e) => compact_field_header_at(bytes@, pos as int, last) == Err::<
                Option<(u8, i16, nat)>,
                DecodeError,
            >(e),
        },
{
    if !has_bytes(bytes, pos, 1) {
        return Err(DecodeError::Truncated);
    }
    let b = bytes[pos];
    let nibble = b % 16;
    let delta = b / 16;
    if nibble == 0 {
        return Ok(None);
    }
    if compact_type_of(nibble).is_none() {
        return Err(DecodeError::BadType);
    }
    if delta != 0 {
        if last as i32 + delta as i32 > 0x7FFF {
            Err(DecodeError::BadFieldId)
        } else {
            Ok(Some((nibble, (last as i32 + delta as i32) as i16, pos + 1)))
        }
    } else {
        match read_compact_i16(bytes, pos + 1) {
            Err(e) => Err(e),
            Ok((id, next)) => Ok(Some((nibble, id, next))),
        }
    }
}

/// Reads the value of a type without parts that starts at `pos`, alone or
/// in a container; with it comes the position behind the value.
pub fn decode_compact_plain(t: TType, bytes: &[u8], pos: usize) -> (r: Result<
    (Value, usize),
    DecodeError,
>)
    ensures
        match r {
            Ok((v, next)) => compact_decode_plain(t, bytes@, pos as int) == Ok::<
                (Val, nat),
                DecodeError,
            >((v@, (next - pos) as nat)) && pos < next <= bytes.len(),
            Err(e) => compact_decode_plain(t, bytes@, pos as int) == Err::<
                (Val, nat),
                DecodeError,
            >(e),
        },
{
    match t {
        TType::Bool => {
            if !has_bytes(bytes, pos, 1) {
                return Err(DecodeError::Truncated);
            }
            let b = bytes[pos];
            if b == 1 {
                Ok((Value::Bool(true), pos + 1))
            } else if b == 0 || b == 2 {
                Ok((Value::Bool(false), pos + 1))
            } else {
                Err(DecodeError::BadBool)
            }
        },
        TType::I8 => {
            if !has_bytes(bytes, pos, 1) {
                return Err(DecodeError::Truncated);
            }
            Ok((Value::I8(i8_of_word(bytes[pos])), pos + 1))
        },
        TType::I16 => match read_compact_i16(bytes, pos) {
            Err(e) => Err(e),
            Ok((x, next)) => Ok((Value::I16(x), next)),
        },
        TType::I32 => match read_varint32(bytes, pos) {
            Err(e) => Err(e),
            Ok((u, next)) => Ok((Value::I32(unzigzag32(u)), next)),
        },
        TType::I64 => match read_varint64(bytes, pos) {
            Err(e) => Err(e),
            Ok((u, next)) => Ok((Value::I64(unzigzag64(u)), next)),
        },
        TType::Double => {
            if !has_bytes(bytes, pos, 8) {
                return Err(DecodeError::Truncated);
            }
            Ok((Value::Double(read_le64(bytes, pos)), pos + 8))
        },
        TType::Uuid => {
            if !has_bytes(bytes, pos, 16) {
                return Err(DecodeError::Truncated);
            }
            Ok((Value::Uuid(read_be128(bytes, pos)), pos + 16))
        },
        TType::Binary => {
            let (n, at) = match read_compact_size(bytes, pos) {
                Ok(r) => r,
                Err(e) => {
                    return Err(e);
                },
            };
            if !has_bytes(bytes, at, n) {
                return Err(DecodeError::Truncated);
            }
            Ok((Value::Binary(copy_range(bytes, at, at + n)), at + n))
        },
        _ => Err(DecodeError::BadType),
    }
}

/// Reads the value of type `t` that starts at `pos`, alone or in a
/// container; with it comes the position behind the value.
pub fn decode_compact(t: TType, bytes: &[u8], pos: usize) -> (r: Result<(Value, usize), DecodeError>)
    ensures
        match r {
            Ok((v, next)) => compact_decode(t, bytes@, pos as int) == Ok::<(Val, nat), DecodeError>(
                (v@, (next - pos) as nat),
            ) && pos < next <= bytes.len(),
            Err(e) => compact_decode(t, bytes@, pos as int) == Err::<(Val, nat), DecodeError>(e),
        },
    decreases remaining(bytes@, pos as int), 1nat,
{
    match t {
        TType::ListOf => {
            let (et, n, at) = match read_compact_list_header(bytes, pos) {
                Ok(r) => r,
                Err(e) => {
                    return Err(e);
                },
            };
            match decode_compact_items(et, bytes, at, n) {
                Ok((items, next)) => Ok((Value::ListOf(et, items), next)),
                Err(e) => Err(e),
            }
        },
        TType::SetOf => {
            let (et, n, at) = match read_compact_list_header(bytes, pos) {
                Ok(r) => r,
                Err(e) => {
                    return Err(e);
                },
            };
            match decode_compact_items(et, bytes, at, n) {
                Ok((items, next)) => Ok((Value::SetOf(et, items), next)),
                Err(e) => Err(e),
            }
        },
        TType::MapOf => {
            let (k, w, n, at) = match read_compact_map_header(bytes, pos) {
                Ok(r) => r,
                Err(e) => {
                    return Err(e);
                },
            };
            match decode_compact_entries(k, w, bytes, at, n) {
                Ok((entries, next)) => Ok((Value::MapOf(k, w, entries), next)),
                Err(e) => Err(e),
            }
        },
        TType::Struct => match decode_compact_fields(bytes, pos) {
            Ok((fields, next)) => Ok((Value::Struct(fields), next)),
            Err(e) => Err(e),
        },
        _ => decode_compact_plain(t, bytes, pos),
    }
}

/// Reads the `count` values of type `t` that start at `pos`; with them
/// comes the position behind the last.
#[verifier::loop_isolation(false)]
fn decode_compact_items(t: TType, bytes: &[u8], pos: usize, count: usize) -> (r: Result<
    (Vec<Value>, usize),
    DecodeError,
>)
    requires
        pos <= bytes.len(),
    ensures
        match r {
            Ok((items, next)) => compact_decode_items(t, bytes@, pos as int, count as nat) == Ok::<
                (Seq<Val>, nat),
                DecodeError,
            >((view_items(&items), (next - pos) as nat)) && pos <= next <= bytes.len(),
            Err(e) => compact_decode_items(t, bytes@, pos as int, count as nat) == Err::<
                (Seq<Val>, nat),
                DecodeError,
            >(e),
        },
    decreases remaining(bytes@, pos as int), count + 2,
{
    let mut items: Vec<Value> = Vec::new();
    let mut at: usize = pos;
    let mut i: usize = 0;
    assert(view_items(&items) =~= Seq::<Val>::empty());
    assert(join(
        Seq::<Val>::empty(),
        0,
        compact_decode_items(t, bytes@, pos as int, count as nat),
    ) == compact_decode_items(t, bytes@, pos as int, count as nat)) by {
        if let Ok((rest, len)) = compact_decode_items(t, bytes@, pos as int, count as nat) {
            assert(Seq::<Val>::empty() + rest =~= rest);
        }
    }
    while i < count
        invariant
            i <= count,
            pos <= at <= bytes.len(),
            compact_decode_items(t, bytes@, pos as int, count as nat) == join(
                view_items(&items),
                (at - pos) as nat,
                compact_decode_items(t, bytes@, at as int, (count - i) as nat),
            ),
        decreases count - i,
    {
        let ghost before = view_items(&items);
        match decode_compact(t, bytes, at) {
            Err(e) => {
                return Err(e);
            },
            Ok((v, next)) => {
                proof {
                    let rest = compact_decode_items(t, bytes@, next as int, (count - i - 1) as nat);
                    if let Ok((more, len)) = rest {
                        assert(before + (seq![v@] + more) =~= before.push(v@) + more);
                    }
                }
                items.push(v);
                assert(view_items(&items) =~= before.push(v@));
                at = next;
                i += 1;
            },
        }
    }
    assert(view_items(&items) + Seq::<Val>::empty() =~= view_items(&items));
    Ok((items, at))
}

/// Reads the `count` entries from `k` to `w` that start at `pos`; with them
/// comes the position behind the last.
#[verifier::loop_isolation(false)]
fn decode_compact_entries(k: TType, w: TType, bytes: &[u8], pos: usize, count: usize) -> (r:
    Result<(Vec<(Value, Value)>, usize), DecodeError>)
    requires
        pos <= bytes.len(),
    ensures
        match r {
            Ok((entries, next)) => compact_decode_entries(
                k,
                w,
                bytes@,
                pos as int,
                count as nat,
            ) == Ok::<(Seq<(Val, Val)>, nat), DecodeError>(
                (view_entries(&entries), (next - pos) as nat),
            ) && pos <= next <= bytes.len(),
            Err(e) => compact_decode_entries(k, w, bytes@, pos as int, count as nat) == Err::<
                (Seq<(Val, Val)>, nat),
                DecodeError,
            >(e),
        },
    decreases remaining(bytes@, pos as int), count + 2,
{
    let mut entries: Vec<(Value, Value)> = Vec::new();
    let mut at: usize = pos;
    let mut i: usize = 0;
    assert(view_entries(&entries) =~= Seq::<(Val, Val)>::empty());
    assert(join(
        Seq::<(Val, Val)>::empty(),
        0,
        compact_decode_entries(k, w, bytes@, pos as int, count as nat),
    ) == compact_decode_entries(k, w, bytes@, pos as int, count as nat)) by {
        if let Ok((rest, len)) = compact_decode_entries(k, w, bytes@, pos as int, count as nat) {
            assert(Seq::<(Val, Val)>::empty() + rest =~= rest);
        }
    }
    while i < count
        invariant
            i <= count,
            pos <= at <= bytes.len(),
            compact_decode_entries(k, w, bytes@, pos as int, count as nat) == join(
                view_entries(&entries),
                (at - pos) as nat,
                compact_decode_entries(k, w, bytes@, at as int, (count - i) as nat),
            ),
        decreases count - i,
    {
        let ghost before = view_entries(&entries);
        let (key, mid) = match decode_compact(k, bytes, at) {
            Err(e) => {
                return Err(e);
            },
            Ok(r) => r,
        };
        let (value, next) = match decode_compact(w, bytes, mid) {
            Err(e) => {
                return Err(e);
            },
            Ok(r) => r,
        };
        proof {
            let rest = compact_decode_entries(k, w, bytes@, next as int, (count - i - 1) as nat);
            if let Ok((more, len)) = rest {
                assert(before + (seq![(key@, value@)] + more) =~= before.push((key@, value@))
                    + more);
            }
        }
        entries.push((key, value));
        assert(view_entries(&entries) =~= before.push((key@, value@)));
        at = next;
        i += 1;
    }
    assert(view_entries(&entries) + Seq::<(Val, Val)>::empty() =~= view_entries(&entries));
    Ok((entries, at))
}

/// Reads the fields of a struct that starts at `pos`, up to the stop byte;
/// with them comes the position behind the stop byte. The id read last
/// starts at zero and is kept here.
#[verifier::loop_isolation(false)]
pub fn decode_compact_fields(bytes: &[u8], pos: usize) -> (r: Result<
    (Vec<(i16, Value)>, usize),
    DecodeError,
>)
    ensures
        match r {
            Ok((fields, next)) => compact_decode_fields(bytes@, pos as int, 0) == Ok::<
                (Seq<(i16, Val)>, nat),
                DecodeError,
            >((view_fields(&fields), (next - pos) as nat)) && pos < next <= bytes.len(),
            Err(e) => compact_decode_fields(bytes@, pos as int, 0) == Err::<
                (Seq<(i16, Val)>, nat),
                DecodeError,
            >(e),
        },
    decreases remaining(bytes@, pos as int), 0nat,
{
    let mut fields: Vec<(i16, Value)> = Vec::new();
    let mut at: usize = pos;
    let mut last: i16 = 0;
    assert(view_fields(&fields) =~= Seq::<(i16, Val)>::empty());
    assert(join(Seq::<(i16, Val)>::empty(), 0, compact_decode_fields(bytes@, pos as int, 0))
        == compact_decode_fields(bytes@, pos as int, 0)) by {
        if let Ok((rest, len)) = compact_decode_fields(bytes@, pos as int, 0) {
            assert(Seq::<(i16, Val)>::empty() + rest =~= rest);
        }
    }
    loop
        invariant
            pos <= at,
            at > pos ==> at <= bytes.len(),
            compact_decode_fields(bytes@, pos as int, 0) == join(
                view_fields(&fields),
                (at - pos) as nat,
                compact_decode_fields(bytes@, at as int, last),
            ),
        decreases remaining(bytes@, at as int),
    {
        let ghost before = view_fields(&fields);
        let (nibble, id, body) = match read_compact_field_header(bytes, at, last) {
            Err(e) => {
                return Err(e);
            },
            Ok(None) => {
                assert(before + Seq::<(i16, Val)>::empty() =~= before);
                return Ok((fields, at + 1));
            },
            Ok(Some(h)) => h,
        };
        let (value, next) = if nibble == 1 {
            (Value::Bool(true), body)
        } else if nibble == 2 {
            (Value::Bool(false), body)
        } else {
            match decode_compact(compact_type_of(nibble).unwrap(), bytes, body) {
                Err(e) => {
                    return Err(e);
                },
                Ok(r) => r,
            }
        };
        proof {
            let rest = compact_decode_fields(bytes@, next as int, id);
            if let Ok((more, len)) = rest {
                assert(before + (seq![(id, value@)] + more) =~= before.push((id, value@)) + more);
            }
        }
        fields.push((id, value));
        assert(view_fields(&fields) =~= before.push((id, value@)));
        at = next;
        last = id;
    }
}

/// Whether the encoding tells all of the value. It tells everything but the
/// key and value types of an empty map, so each empty map in the value has
/// to declare them as `Stop`, which is how such a map is read.
pub open spec fn compact_exact(v: Val) -> bool
    decreases v,
{
    match v {
        Val::ListOf(_, items) => compact_exact_items(items),
        Val::SetOf(_, items) => compact_exact_items(items),
        Val::MapOf(k, w, entries) => compact_exact_entries(k, w, entries),
        Val::Struct(fields) => compact_exact_fields(fields),
        _ => true,
    }
}

/// Whether the encoding tells all of each element.
pub open spec fn compact_exact_items(items: Seq<Val>) -> bool
    decreases items,
{
    forall|i: int| 0 <= i < items.len() ==> compact_exact(#[trigger] items[i])
}

/// Whether the encoding tells all of a map with these types and entries.
pub open spec fn compact_exact_entries(k: TType, w: TType, entries: Seq<(Val, Val)>) -> bool
    decreases entries,
{
    &&& entries.len() == 0 ==> k == TType::Stop && w == TType::Stop
    &&& forall|i: int|
        0 <= i < entries.len() ==> compact_exact((#[trigger] entries[i]).0) && compact_exact(
            entries[i].1,
        )
}

/// Whether the encoding tells all of each field.
pub open spec fn compact_exact_fields(fields: Seq<(i16, Val)>) -> bool
    decreases fields,
{
    forall|i: int| 0 <= i < fields.len() ==> compact_exact((#[trigger] fields[i]).1)
}

/// Every type is the type of its own nibble.
pub proof fn lemma_compact_tag(t: TType)
    ensures
        compact_type(compact_tag(t)) == Some(t),
        compact_tag(t) <= 13,
        t != TType::Stop ==> compact_tag(t) >= 1,
{
}

/// Reading back a number of at most 32 bits.
proof fn lemma_compact_varint32(bytes: Seq<u8>, pos: int, n: nat)
    requires
        holds_at(bytes, pos, varint(n)),
        n <= u32::MAX,
    ensures
        varint32_at(bytes, pos) == Ok::<(nat, nat), DecodeError>((n, varint(n).len())),
        varint(n).len() >= 1,
{
    lemma_pow128();
    lemma_varint_len(n, 5);
    lemma_varint_roundtrip(bytes, pos, n, 5);
}

/// Reading back a number of at most 64 bits.
proof fn lemma_compact_varint64(bytes: Seq<u8>, pos: int, n: nat)
    requires
        holds_at(bytes, pos, varint(n)),
        n <= u64::MAX,
    ensures
        varint64_at(bytes, pos) == Ok::<(nat, nat), DecodeError>((n, varint(n).len())),
        varint(n).len() >= 1,
{
    lemma_pow128();
    lemma_varint_len(n, 10);
    lemma_varint_roundtrip(bytes, pos, n, 10);
}

/// Reading back a 16-bit signed number.
proof fn lemma_compact_i16(bytes: Seq<u8>, pos: int, x: i16)
    requires
        holds_at(bytes, pos, varint(zigzag(x as int) as nat)),
    ensures
        compact_i16_at(bytes, pos) == Ok::<(i16, nat), DecodeError>(
            (x, varint(zigzag(x as int) as nat).len()),
        ),
{
    lemma_zigzag_roundtrip(x as int);
    lemma_compact_varint32(bytes, pos, zigzag(x as int) as nat);
}

/// Decoding inverts encoding for the types without parts.
proof fn lemma_compact_roundtrip_plain(v: Val, bytes: Seq<u8>, pos: int)
    requires
        v.wf(),
        holds_at(bytes, pos, compact_encode_plain(v)),
        !(v is ListOf || v is SetOf || v is MapOf || v is Struct),
    ensures
        compact_decode_plain(v.ttype(), bytes, pos) == Ok::<(Val, nat), DecodeError>(
            (v, compact_encode_plain(v).len()),
        ),
{
    match v {
        Val::Bool(b) => {
            lemma_first_byte(bytes, pos, compact_encode_plain(v));
        },
        Val::I8(x) => {
            lemma_first_byte(bytes, pos, compact_encode_plain(v));
            lemma_signed_roundtrip(x as int, 0x100);
        },
        Val::I16(x) => {
            lemma_compact_i16(bytes, pos, x);
        },
        Val::I32(x) => {
            lemma_zigzag_roundtrip(x as int);
            lemma_compact_varint32(bytes, pos, zigzag(x as int) as nat);
        },
        Val::I64(x) => {
            lemma_zigzag_roundtrip(x as int);
            lemma_compact_varint64(bytes, pos, zigzag(x as int) as nat);
        },
        Val::Double(bits) => {
            lemma_be_len(bits as int);
            lemma_le64_at(bytes, pos, bits as int);
            vstd::arithmetic::div_mod::lemma_small_mod(bits as nat, 0x1_0000_0000_0000_0000);
        },
        Val::Uuid(u) => {
            lemma_be_len(u as int);
            lemma_be128_at(bytes, pos, u as int);
            vstd::arithmetic::div_mod::lemma_small_mod(
                u as nat,
                0x1_0000_0000_0000_0000_0000_0000_0000_0000nat,
            );
        },
        Val::Binary(b) => {
            lemma_holds_concat(bytes, pos, varint(b.len()), b);
            lemma_compact_varint32(bytes, pos, b.len());
        },
        _ => {},
    }
}

/// Reading back the header of a list or set.
proof fn lemma_compact_list_head(t: TType, n: nat, bytes: Seq<u8>, pos: int)
    requires
        holds_at(bytes, pos, compact_list_header(t, n)),
        n <= MAX_SIZE,
    ensures
        compact_list_header_at(bytes, pos) == Ok::<(TType, nat, nat), DecodeError>(
            (t, n, compact_list_header(t, n).len()),
        ),
{
    lemma_compact_tag(t);
    let tag = compact_tag(t);
    if n <= 14 {
        lemma_first_byte(bytes, pos, compact_list_header(t, n));
        assert((n * 16 + tag) % 16 == tag && (n * 16 + tag) / 16 == n);
    } else {
        lemma_holds_concat(bytes, pos, seq![(0xF0 + tag) as u8], varint(n));
        lemma_first_byte(bytes, pos, seq![(0xF0 + tag) as u8]);
        assert((0xF0 + tag) % 16 == tag && (0xF0 + tag) / 16 == 15);
        lemma_compact_varint32(bytes, pos + 1, n);
    }
}

/// Reading back the header of a map. An empty map is read as a map from
/// `Stop` to `Stop`.
proof fn lemma_compact_map_head(k: TType, w: TType, n: nat, bytes: Seq<u8>, pos: int)
    requires
        holds_at(bytes, pos, compact_map_header(k, w, n)),
        n <= MAX_SIZE,
        n == 0 ==> k == TType::Stop && w == TType::Stop,
    ensures
        compact_map_header_at(bytes, pos) == Ok::<(TType, TType, nat, nat), DecodeError>(
            (k, w, n, compact_map_header(k, w, n).len()),
        ),
{
    lemma_compact_tag(k);
    lemma_compact_tag(w);
    if n == 0 {
        assert(varint(0) =~= seq![0u8]);
        lemma_compact_varint32(bytes, pos, 0);
    } else {
        let types = seq![(compact_tag(k) * 16 + compact_tag(w)) as u8];
        lemma_holds_concat(bytes, pos, varint(n), types);
        lemma_compact_varint32(bytes, pos, n);
        lemma_first_byte(bytes, pos + varint(n).len(), types);
        let a = compact_tag(k);
        let b = compact_tag(w);
        assert((a * 16 + b) % 16 == b && (a * 16 + b) / 16 == a);
    }
}

/// Reading back the header of a field.
proof fn lemma_compact_field_head(last: i16, id: i16, nibble: u8, bytes: Seq<u8>, pos: int)
    requires
        holds_at(bytes, pos, compact_field_header(last as int, id as int, nibble)),
        1 <= nibble <= 13,
    ensures
        compact_field_header_at(bytes, pos, last) == Ok::<Option<(u8, i16, nat)>, DecodeError>(
            Some((nibble, id, compact_field_header(last as int, id as int, nibble).len())),
        ),
{
    let delta = id - last;
    if 1 <= delta <= 15 {
        lemma_first_byte(bytes, pos, compact_field_header(last as int, id as int, nibble));
        assert((delta * 16 + nibble) % 16 == nibble && (delta * 16 + nibble) / 16 == delta);
    } else {
        let rest = varint(zigzag(id as int) as nat);
        lemma_holds_concat(bytes, pos, seq![nibble], rest);
        lemma_first_byte(bytes, pos, seq![nibble]);
        assert(nibble % 16 == nibble && nibble / 16 == 0);
        lemma_compact_i16(bytes, pos + 1, id);
    }
}

/// Decoding inverts encoding: where `bytes` holds the encoding of a
/// well-formed value at `pos`, and the encoding tells all of the value,
/// decoding the value's type at `pos` yields the value and takes exactly
/// the bytes of the encoding, whatever follows.
pub proof fn lemma_compact_roundtrip(v: Val, bytes: Seq<u8>, pos: int)
    requires
        v.wf(),
        compact_exact(v),
        holds_at(bytes, pos, compact_encode(v)),
    ensures
        compact_decode(v.ttype(), bytes, pos) == Ok::<(Val, nat), DecodeError>(
            (v, compact_encode(v).len()),
        ),
    decreases v, 0nat,
{
    lemma_wf_unfold(v);
    match v {
        Val::ListOf(t, items) => {
            let head = compact_list_header(t, items.len());
            lemma_holds_concat(bytes, pos, head, compact_encode_items(items, 0));
            lemma_compact_list_head(t, items.len(), bytes, pos);
            lemma_compact_roundtrip_items(t, items, 0, bytes, pos + head.len());
            assert(items.subrange(0, items.len() as int) =~= items);
        },
        Val::SetOf(t, items) => {
            let head = compact_list_header(t, items.len());
            lemma_holds_concat(bytes, pos, head, compact_encode_items(items, 0));
            lemma_compact_list_head(t, items.len(), bytes, pos);
            lemma_compact_roundtrip_items(t, items, 0, bytes, pos + head.len());
            assert(items.subrange(0, items.len() as int) =~= items);
        },
        Val::MapOf(k, w, entries) => {
            let head = compact_map_header(k, w, entries.len());
            lemma_holds_concat(bytes, pos, head, compact_encode_entries(entries, 0));
            lemma_compact_map_head(k, w, entries.len(), bytes, pos);
            lemma_compact_roundtrip_entries(k, w, entries, 0, bytes, pos + head.len());
            assert(entries.subrange(0, entries.len() as int) =~= entries);
        },
        Val::Struct(fields) => {
            lemma_compact_roundtrip_fields(fields, 0, 0, bytes, pos);
            assert(fields.subrange(0, fields.len() as int) =~= fields);
        },
        _ => {
            lemma_compact_roundtrip_plain(v, bytes, pos);
        },
    }
}

/// Decoding inverts encoding for the elements of a container, from the
/// element at `from` on.
pub proof fn lemma_compact_roundtrip_items(
    t: TType,
    items: Seq<Val>,
    from: int,
    bytes: Seq<u8>,
    pos: int,
)
    requires
        0 <= from <= items.len(),
        forall|i: int|
            from <= i < items.len() ==> (#[trigger] items[i]).ttype() == t && items[i].wf()
                && compact_exact(items[i]),
        holds_at(bytes, pos, compact_encode_items(items, from)),
    ensures
        compact_decode_items(t, bytes, pos, (items.len() - from) as nat) == Ok::<
            (Seq<Val>, nat),
            DecodeError,
        >((items.subrange(from, items.len() as int), compact_encode_items(items, from).len())),
    decreases items, items.len() - from,
{
    if from < items.len() {
        let first = compact_encode(items[from]);
        lemma_holds_concat(bytes, pos, first, compact_encode_items(items, from + 1));
        lemma_compact_roundtrip(items[from], bytes, pos);
        lemma_compact_roundtrip_items(t, items, from + 1, bytes, pos + first.len());
        assert(seq![items[from]] + items.subrange(from + 1, items.len() as int)
            =~= items.subrange(from, items.len() as int));
    } else {
        assert(items.subrange(from, items.len() as int) =~= Seq::<Val>::empty());
    }
}

/// Decoding inverts encoding for the entries of a map, from the entry at
/// `from` on.
pub proof fn lemma_compact_roundtrip_entries(
    k: TType,
    w: TType,
    entries: Seq<(Val, Val)>,
    from: int,
    bytes: Seq<u8>,
    pos: int,
)
    requires
        0 <= from <= entries.len(),
        forall|i: int|
            from <= i < entries.len() ==> {
                &&& (#[trigger] entries[i]).0.ttype() == k
                &&& entries[i].0.wf()
                &&& compact_exact(entries[i].0)
                &&& entries[i].1.ttype() == w
                &&& entries[i].1.wf()
                &&& compact_exact(entries[i].1)
            },
        holds_at(bytes, pos, compact_encode_entries(entries, from)),
    ensures
        compact_decode_entries(k, w, bytes, pos, (entries.len() - from) as nat) == Ok::<
            (Seq<(Val, Val)>, nat),
            DecodeError,
        >(
            (
                entries.subrange(from, entries.len() as int),
                compact_encode_entries(entries, from).len(),
            ),
        ),
    decreases entries, entries.len() - from,
{
    if from < entries.len() {
        let key = compact_encode(entries[from].0);
        let value = compact_encode(entries[from].1);
        lemma_holds_concat(bytes, pos, key + value, compact_encode_entries(entries, from + 1));
        lemma_holds_concat(bytes, pos, key, value);
        lemma_compact_roundtrip(entries[from].0, bytes, pos);
        lemma_compact_roundtrip(entries[from].1, bytes, pos + key.len());
        lemma_compact_roundtrip_entries(
            k,
            w,
            entries,
            from + 1,
            bytes,
            pos + key.len() + value.len(),
        );
        assert(seq![entries[from]] + entries.subrange(from + 1, entries.len() as int)
            =~= entries.subrange(from, entries.len() as int));
    } else {
        assert(entries.subrange(from, entries.len() as int) =~= Seq::<(Val, Val)>::empty());
    }
}

/// Decoding inverts encoding for the fields of a struct, from the field at
/// `from` on, behind a field with id `last`.
pub proof fn lemma_compact_roundtrip_fields(
    fields: Seq<(i16, Val)>,
    from: int,
    last: i16,
    bytes: Seq<u8>,
    pos: int,
)
    requires
        0 <= from <= fields.len(),
        forall|i: int|
            from <= i < fields.len() ==> (#[trigger] fields[i]).1.wf() && compact_exact(
                fields[i].1,
            ),
        holds_at(bytes, pos, compact_encode_fields(fields, from, last)),
    ensures
        compact_decode_fields(bytes, pos, last) == Ok::<(Seq<(i16, Val)>, nat), DecodeError>(
            (
                fields.subrange(from, fields.len() as int),
                compact_encode_fields(fields, from, last).len(),
            ),
        ),
    decreases fields, fields.len() - from,
{
    if from < fields.len() {
        let id = fields[from].0;
        let value = fields[from].1;
        let nibble = compact_field_nibble(value);
        let head = compact_field_header(last as int, id as int, nibble);
        let body = if value is Bool {
            Seq::<u8>::empty()
        } else {
            compact_encode(value)
        };
        lemma_compact_tag(value.ttype());
        lemma_holds_concat(bytes, pos, head + body, compact_encode_fields(fields, from + 1, id));
        lemma_holds_concat(bytes, pos, head, body);
        lemma_compact_field_head(last, id, nibble, bytes, pos);
        if !(value is Bool) {
            lemma_compact_roundtrip(value, bytes, pos + head.len());
        }
        lemma_compact_roundtrip_fields(fields, from + 1, id, bytes, pos + head.len() + body.len());
        assert(seq![fields[from]] + fields.subrange(from + 1, fields.len() as int)
            =~= fields.subrange(from, fields.len() as int));
    } else {
        lemma_first_byte(bytes, pos, seq![0u8]);
        assert(fields.subrange(from, fields.len() as int) =~= Seq::<(i16, Val)>::empty());
    }
}

/// Whatever decodes is well-formed, so it can be encoded again: a value
/// that is decoded as a `t` is a `t`, each of its containers holds elements
/// of the type it declares, and it takes at least one byte and no byte
/// beyond the input.
pub proof fn lemma_compact_decoded(t: TType, bytes: Seq<u8>, pos: int)
    requires
        0 <= pos,
    ensures
        compact_decode(t, bytes, pos) matches Ok((v, len)) ==> decoded_well(t, v, bytes, pos, len),
    decreases remaining(bytes, pos), 1nat,
{
    match compact_decode(t, bytes, pos) {
        Ok((v, len)) => {
            match t {
                TType::ListOf => {
                    let (et, n, head) = compact_list_header_at(bytes, pos).unwrap();
                    lemma_compact_header_len(bytes, pos);
                    lemma_compact_decoded_items(et, bytes, pos + head, n);
                    lemma_wf_unfold(v);
                },
                TType::SetOf => {
                    let (et, n, head) = compact_list_header_at(bytes, pos).unwrap();
                    lemma_compact_header_len(bytes, pos);
                    lemma_compact_decoded_items(et, bytes, pos + head, n);
                    lemma_wf_unfold(v);
                },
                TType::MapOf => {
                    let (k, w, n, head) = compact_map_header_at(bytes, pos).unwrap();
                    lemma_compact_header_len(bytes, pos);
                    lemma_compact_decoded_entries(k, w, bytes, pos + head, n);
                    lemma_wf_unfold(v);
                },
                TType::Struct => {
                    lemma_compact_decoded_fields(bytes, pos, 0);
                    lemma_wf_unfold(v);
                },
                _ => {
                    lemma_compact_header_len(bytes, pos);
                },
            }
        },
        Err(_) => {},
    }
}

/// A number that is read lies within the input.
proof fn lemma_varint_within(bytes: Seq<u8>, pos: int, limit: nat)
    requires
        0 <= pos,
    ensures
        crate::varint::varint_at(bytes, pos, limit) matches Ok((_, len)) ==> 1 <= len && pos + len
            <= bytes.len(),
    decreases limit,
{
    if limit > 0 && pos < bytes.len() && bytes[pos] >= 0x80 {
        lemma_varint_within(bytes, pos + 1, (limit - 1) as nat);
    }
}

/// The headers and numbers that are read lie within the input.
proof fn lemma_compact_header_len(bytes: Seq<u8>, pos: int)
    requires
        0 <= pos,
    ensures
        varint32_at(bytes, pos) matches Ok((_, len)) ==> 1 <= len && pos + len <= bytes.len(),
        varint64_at(bytes, pos) matches Ok((_, len)) ==> 1 <= len && pos + len <= bytes.len(),
        compact_i16_at(bytes, pos) matches Ok((_, len)) ==> 1 <= len && pos + len <= bytes.len(),
        compact_size_at(bytes, pos) matches Ok((n, len)) ==> 1 <= len && pos + len <= bytes.len()
            && n <= MAX_SIZE,
        compact_list_header_at(bytes, pos) matches Ok((_, n, len)) ==> 1 <= len && pos + len
            <= bytes.len() && n <= MAX_SIZE,
        compact_map_header_at(bytes, pos) matches Ok((_, _, n, len)) ==> 1 <= len && pos + len
            <= bytes.len() && n <= MAX_SIZE,
        forall|last: i16|
            #[trigger] compact_field_header_at(bytes, pos, last) matches Ok(Some((nibble, _, len)))
                ==> 1 <= len && pos + len <= bytes.len() && 1 <= nibble <= 13,
{
    lemma_varint_within(bytes, pos, 5);
    lemma_varint_within(bytes, pos, 10);
    lemma_varint_within(bytes, pos + 1, 5);
}

/// Whatever decodes as the elements of a container is well-formed.
pub proof fn lemma_compact_decoded_items(t: TType, bytes: Seq<u8>, pos: int, count: nat)
    requires
        0 <= pos <= bytes.len(),
        count <= MAX_SIZE,
    ensures
        compact_decode_items(t, bytes, pos, count) matches Ok((items, len)) ==> items.len()
            == count && items_wf(t, items) && pos + len <= bytes.len(),
    decreases remaining(bytes, pos), count + 2,
{
    if count > 0 {
        lemma_compact_decoded(t, bytes, pos);
        if let Ok((first, len)) = compact_decode(t, bytes, pos) {
            lemma_compact_decoded_items(t, bytes, pos + len, (count - 1) as nat);
        }
    }
}

/// Whatever decodes as the entries of a map is well-formed.
pub proof fn lemma_compact_decoded_entries(
    k: TType,
    w: TType,
    bytes: Seq<u8>,
    pos: int,
    count: nat,
)
    requires
        0 <= pos <= bytes.len(),
        count <= MAX_SIZE,
    ensures
        compact_decode_entries(k, w, bytes, pos, count) matches Ok((entries, len))
            ==> entries.len() == count && entries_wf(k, w, entries) && pos + len <= bytes.len(),
    decreases remaining(bytes, pos), count + 2,
{
    if count > 0 {
        lemma_compact_decoded(k, bytes, pos);
        if let Ok((key, key_len)) = compact_decode(k, bytes, pos) {
            lemma_compact_decoded(w, bytes, pos + key_len);
            if let Ok((value, value_len)) = compact_decode(w, bytes, pos + key_len) {
                lemma_compact_decoded_entries(
                    k,
                    w,
                    bytes,
                    pos + key_len + value_len,
                    (count - 1) as nat,
                );
            }
        }
    }
}

/// Whatever decodes as the fields of a struct is well-formed.
pub proof fn lemma_compact_decoded_fields(bytes: Seq<u8>, pos: int, last: i16)
    requires
        0 <= pos,
    ensures
        compact_decode_fields(bytes, pos, last) matches Ok((fields, len)) ==> fields_wf(fields)
            && 1 <= len && pos + len <= bytes.len(),
    decreases remaining(bytes, pos), 0nat,
{
    lemma_compact_header_len(bytes, pos);
    if let Ok(Some((nibble, id, head))) = compact_field_header_at(bytes, pos, last) {
        if nibble == 1 || nibble == 2 {
            lemma_compact_decoded_fields(bytes, pos + head, id);
        } else {
            let t = compact_type(nibble).unwrap();
            lemma_compact_decoded(t, bytes, pos + head);
            if let Ok((value, len)) = compact_decode(t, bytes, pos + head) {
                lemma_compact_decoded_fields(bytes, pos + head + len, id);
            }
        }
    }
}

} // verus!
