//! What comes back from the compact codec, for every value.
//!
//! The compact encoding of an empty map does not tell the key and value
//! types that the map declares, so a value with such a map cannot come back
//! as it was. It comes back with those types forgotten, which is a value
//! that means the same.

use crate::bytes::holds_at;
use crate::compact::{
    compact_decode, compact_encode, compact_encode_entries, compact_encode_fields,
    compact_encode_items, compact_exact, compact_exact_entries, compact_exact_fields,
    compact_exact_items, compact_field_nibble, lemma_compact_roundtrip,
};
use crate::error::DecodeError;
use crate::logical::{
    entries_cover, entries_within, equivalent, fields_alike, items_alike, items_cover,
    items_within, lemma_entry_finds, lemma_entry_found, lemma_item_finds, lemma_item_found,
};
use crate::value::{entries_wf, fields_wf, items_wf, lemma_wf_unfold, TType, Val};
use vstd::prelude::*;

verus! {

/// The value as the compact codec reads it back: the same, but that each
/// empty map in it is a map from `Stop` to `Stop`.
pub open spec fn compact_reading(v: Val) -> Val
    decreases v,
{
    match v {
        Val::ListOf(t, items) => Val::ListOf(t, compact_reading_items(items)),
        Val::SetOf(t, items) => Val::SetOf(t, compact_reading_items(items)),
        Val::MapOf(k, w, entries) => if entries.len() == 0 {
            Val::MapOf(TType::Stop, TType::Stop, entries)
        } else {
            Val::MapOf(k, w, compact_reading_entries(entries))
        },
        Val::Struct(fields) => Val::Struct(compact_reading_fields(fields)),
        _ => v,
    }
}

/// The elements as the compact codec reads them back.
pub open spec fn compact_reading_items(items: Seq<Val>) -> Seq<Val>
    decreases items,
{
    Seq::new(
        items.len(),
        |i: int|
            if 0 <= i < items.len() {
                compact_reading(items[i])
            } else {
                Val::Bool(false)
            },
    )
}

/// The entries as the compact codec reads them back.
pub open spec fn compact_reading_entries(entries: Seq<(Val, Val)>) -> Seq<(Val, Val)>
    decreases entries,
{
    Seq::new(
        entries.len(),
        |i: int|
            if 0 <= i < entries.len() {
                (compact_reading(entries[i].0), compact_reading(entries[i].1))
            } else {
                (Val::Bool(false), Val::Bool(false))
            },
    )
}

/// The fields as the compact codec reads them back.
pub open spec fn compact_reading_fields(fields: Seq<(i16, Val)>) -> Seq<(i16, Val)>
    decreases fields,
{
    Seq::new(
        fields.len(),
        |i: int|
            if 0 <= i < fields.len() {
                (fields[i].0, compact_reading(fields[i].1))
            } else {
                (0i16, Val::Bool(false))
            },
    )
}

/// What holds of a value `r` that stands for `v` on the wire.
pub open spec fn stands_for(r: Val, v: Val) -> bool {
    &&& r.ttype() == v.ttype()
    &&& r.wf()
    &&& compact_exact(r)
    &&& compact_encode(r) == compact_encode(v)
    &&& compact_field_nibble(r) == compact_field_nibble(v)
    &&& r is Bool <==> v is Bool
    &&& equivalent(r, v)
}

/// The reading of a well-formed value stands for the value: it has the same
/// type and the same encoding, the encoding tells all of it, and it means
/// the same.
pub proof fn lemma_reading_stands_for(v: Val)
    requires
        v.wf(),
    ensures
        stands_for(compact_reading(v), v),
    decreases v,
{
    lemma_wf_unfold(v);
    let r = compact_reading(v);
    match v {
        Val::ListOf(t, items) => {
            let read = compact_reading_items(items);
            assert forall|i: int| 0 <= i < items.len() implies stands_for(
                #[trigger] read[i],
                items[i],
            ) by {
                lemma_reading_stands_for(items[i]);
            }
            lemma_items_stand_for(t, read, items);
            lemma_items_encode_alike(read, items, 0);
            lemma_items_mean_alike(read, items, 0);
            lemma_wf_unfold(r);
        },
        Val::SetOf(t, items) => {
            let read = compact_reading_items(items);
            assert forall|i: int| 0 <= i < items.len() implies stands_for(
                #[trigger] read[i],
                items[i],
            ) by {
                lemma_reading_stands_for(items[i]);
            }
            lemma_items_stand_for(t, read, items);
            lemma_items_encode_alike(read, items, 0);
            lemma_items_mean_within(read, items, 0);
            lemma_wf_unfold(r);
        },
        Val::MapOf(k, w, entries) => {
            if entries.len() == 0 {
                lemma_wf_unfold(r);
                assert(compact_exact_entries(TType::Stop, TType::Stop, entries));
            } else {
                let read = compact_reading_entries(entries);
                assert forall|i: int| 0 <= i < entries.len() implies stands_for(
                    (#[trigger] read[i]).0,
                    entries[i].0,
                ) && stands_for(read[i].1, entries[i].1) by {
                    lemma_reading_stands_for(entries[i].0);
                    lemma_reading_stands_for(entries[i].1);
                }
                lemma_entries_stand_for(k, w, read, entries);
                lemma_entries_encode_alike(read, entries, 0);
                lemma_entries_mean_within(read, entries, 0);
                lemma_wf_unfold(r);
            }
        },
        Val::Struct(fields) => {
            let read = compact_reading_fields(fields);
            assert forall|i: int| 0 <= i < fields.len() implies (#[trigger] read[i]).0
                == fields[i].0 && stands_for(read[i].1, fields[i].1) by {
                lemma_reading_stands_for(fields[i].1);
            }
            lemma_fields_stand_for(read, fields);
            lemma_fields_encode_alike(read, fields, 0, 0);
            lemma_fields_mean_alike(read, fields, 0);
            lemma_wf_unfold(r);
        },
        _ => {},
    }
}

proof fn lemma_items_stand_for(t: TType, read: Seq<Val>, items: Seq<Val>)
    requires
        read.len() == items.len(),
        items_wf(t, items),
        forall|i: int| 0 <= i < items.len() ==> stands_for(#[trigger] read[i], items[i]),
    ensures
        items_wf(t, read),
        compact_exact_items(read),
{
}

proof fn lemma_entries_stand_for(
    k: TType,
    w: TType,
    read: Seq<(Val, Val)>,
    entries: Seq<(Val, Val)>,
)
    requires
        read.len() == entries.len(),
        entries.len() > 0,
        entries_wf(k, w, entries),
        forall|i: int|
            0 <= i < entries.len() ==> stands_for((#[trigger] read[i]).0, entries[i].0)
                && stands_for(read[i].1, entries[i].1),
    ensures
        entries_wf(k, w, read),
        compact_exact_entries(k, w, read),
{
}

proof fn lemma_fields_stand_for(read: Seq<(i16, Val)>, fields: Seq<(i16, Val)>)
    requires
        read.len() == fields.len(),
        fields_wf(fields),
        forall|i: int|
            0 <= i < fields.len() ==> (#[trigger] read[i]).0 == fields[i].0 && stands_for(
                read[i].1,
                fields[i].1,
            ),
    ensures
        fields_wf(read),
        compact_exact_fields(read),
{
}

proof fn lemma_items_encode_alike(read: Seq<Val>, items: Seq<Val>, from: int)
    requires
        0 <= from,
        read.len() == items.len(),
        forall|i: int| 0 <= i < items.len() ==> stands_for(#[trigger] read[i], items[i]),
    ensures
        compact_encode_items(read, from) == compact_encode_items(items, from),
    decreases items.len() - from,
{
    if from < items.len() {
        assert(stands_for(read[from], items[from]));
        lemma_items_encode_alike(read, items, from + 1);
    }
}

proof fn lemma_entries_encode_alike(read: Seq<(Val, Val)>, entries: Seq<(Val, Val)>, from: int)
    requires
        0 <= from,
        read.len() == entries.len(),
        forall|i: int|
            0 <= i < entries.len() ==> stands_for((#[trigger] read[i]).0, entries[i].0)
                && stands_for(read[i].1, entries[i].1),
    ensures
        compact_encode_entries(read, from) == compact_encode_entries(entries, from),
    decreases entries.len() - from,
{
    if from < entries.len() {
        assert(stands_for(read[from].0, entries[from].0));
        lemma_entries_encode_alike(read, entries, from + 1);
    }
}

proof fn lemma_fields_encode_alike(
    read: Seq<(i16, Val)>,
    fields: Seq<(i16, Val)>,
    from: int,
    last: i16,
)
    requires
        0 <= from,
        read.len() == fields.len(),
        forall|i: int|
            0 <= i < fields.len() ==> (#[trigger] read[i]).0 == fields[i].0 && stands_for(
                read[i].1,
                fields[i].1,
            ),
    ensures
        compact_encode_fields(read, from, last) == compact_encode_fields(fields, from, last),
    decreases fields.len() - from,
{
    if from < fields.len() {
        assert(read[from].0 == fields[from].0 && stands_for(read[from].1, fields[from].1));
        lemma_fields_encode_alike(read, fields, from + 1, fields[from].0);
    }
}

proof fn lemma_items_mean_alike(read: Seq<Val>, items: Seq<Val>, from: int)
    requires
        0 <= from,
        read.len() == items.len(),
        forall|i: int| 0 <= i < items.len() ==> stands_for(#[trigger] read[i], items[i]),
    ensures
        items_alike(read, items, from),
    decreases items.len() - from,
{
    if from < items.len() {
        assert(stands_for(read[from], items[from]));
        lemma_items_mean_alike(read, items, from + 1);
    }
}

proof fn lemma_fields_mean_alike(read: Seq<(i16, Val)>, fields: Seq<(i16, Val)>, from: int)
    requires
        0 <= from,
        read.len() == fields.len(),
        forall|i: int|
            0 <= i < fields.len() ==> (#[trigger] read[i]).0 == fields[i].0 && stands_for(
                read[i].1,
                fields[i].1,
            ),
    ensures
        fields_alike(read, fields, from),
    decreases fields.len() - from,
{
    if from < fields.len() {
        assert(read[from].0 == fields[from].0 && stands_for(read[from].1, fields[from].1));
        lemma_fields_mean_alike(read, fields, from + 1);
    }
}

proof fn lemma_items_mean_within(read: Seq<Val>, items: Seq<Val>, from: int)
    requires
        0 <= from,
        read.len() == items.len(),
        forall|i: int| 0 <= i < items.len() ==> stands_for(#[trigger] read[i], items[i]),
    ensures
        items_within(read, items, from),
        items_cover(read, items, from),
    decreases items.len() - from,
{
    if from < items.len() {
        assert(stands_for(read[from], items[from]));
        lemma_item_found(read[from], items, from, items.len() as int);
        lemma_item_finds(read, items[from], from, read.len() as int);
        lemma_items_mean_within(read, items, from + 1);
    }
}

proof fn lemma_entries_mean_within(read: Seq<(Val, Val)>, entries: Seq<(Val, Val)>, from: int)
    requires
        0 <= from,
        read.len() == entries.len(),
        forall|i: int|
            0 <= i < entries.len() ==> stands_for((#[trigger] read[i]).0, entries[i].0)
                && stands_for(read[i].1, entries[i].1),
    ensures
        entries_within(read, entries, from),
        entries_cover(read, entries, from),
    decreases entries.len() - from,
{
    if from < entries.len() {
        assert(stands_for(read[from].0, entries[from].0));
        lemma_entry_found(read[from], entries, from, entries.len() as int);
        lemma_entry_finds(read, entries[from], from, read.len() as int);
        lemma_entries_mean_within(read, entries, from + 1);
    }
}

/// Decoding what was encoded yields the reading of the value, for every
/// well-formed value: where `bytes` holds the encoding of `v` at `pos`,
/// decoding the type of `v` at `pos` yields the reading of `v`, which means
/// the same as `v`, and takes exactly the bytes of the encoding.
pub proof fn lemma_compact_decode_encode(v: Val, bytes: Seq<u8>, pos: int)
    requires
        v.wf(),
        holds_at(bytes, pos, compact_encode(v)),
    ensures
        compact_decode(v.ttype(), bytes, pos) == Ok::<(Val, nat), DecodeError>(
            (compact_reading(v), compact_encode(v).len()),
        ),
        equivalent(compact_reading(v), v),
        compact_exact(v) ==> compact_reading(v) == v,
{
    lemma_reading_stands_for(v);
    lemma_compact_roundtrip(compact_reading(v), bytes, pos);
    if compact_exact(v) {
        lemma_compact_roundtrip(v, bytes, pos);
    }
}

} // verus!
