//! The order in which sets and maps are sent.
//!
//! The wire keeps the order in which the elements of a set and the entries
//! of a map are written, and does not ask for any. The test writes them in
//! strictly ascending order of the elements and of the keys: numbers by
//! their value, strings and binaries byte by byte. So nothing is sent twice,
//! and the same value always gives the same bytes.

use crate::cross_test::ExpectedModel;
use crate::plan::{
    i32_entries, i32_values, insanity, insanity_answer, map_map_answer, multi_args, plan,
    sent_insanity, string_map, text, xception, xception2, xtruct, xtruct2, STEPS,
};
use crate::value::{TType, Val};
use vstd::prelude::*;
use vstd::utf8::encode_utf8;

verus! {

/// Whether `a` comes before `b` byte by byte: at the first place where they
/// differ `a` has the lesser byte, or `a` ends there and `b` goes on.
pub open spec fn bytes_below(a: Seq<u8>, b: Seq<u8>) -> bool
    decreases a.len(),
{
    if b.len() == 0 {
        false
    } else if a.len() == 0 {
        true
    } else if a[0] != b[0] {
        a[0] < b[0]
    } else {
        bytes_below(a.drop_first(), b.drop_first())
    }
}

/// Whether `a` comes before `b`: two numbers of one width by their value,
/// `false` before `true`, two binaries byte by byte. Nothing else comes
/// before anything.
pub open spec fn below(a: Val, b: Val) -> bool {
    match (a, b) {
        (Val::Bool(x), Val::Bool(y)) => !x && y,
        (Val::I8(x), Val::I8(y)) => x < y,
        (Val::I16(x), Val::I16(y)) => x < y,
        (Val::I32(x), Val::I32(y)) => x < y,
        (Val::I64(x), Val::I64(y)) => x < y,
        (Val::Uuid(x), Val::Uuid(y)) => x < y,
        (Val::Binary(x), Val::Binary(y)) => bytes_below(x, y),
        _ => false,
    }
}

/// Whether the elements are strictly ascending.
pub open spec fn ascending(items: Seq<Val>) -> bool {
    forall|i: int, j: int| 0 <= i < j < items.len() ==> below(#[trigger] items[i], #[trigger] items[j])
}

/// Whether the keys of the entries are strictly ascending.
pub open spec fn keys_ascending(entries: Seq<(Val, Val)>) -> bool {
    forall|i: int, j: int|
        0 <= i < j < entries.len() ==> below((#[trigger] entries[i]).0, (#[trigger] entries[j]).0)
}

/// Whether every set in the value has its elements, and every map its keys,
/// in strictly ascending order.
pub open spec fn ordered(v: Val) -> bool
    decreases v,
{
    match v {
        Val::ListOf(_, items) => items_ordered(items, 0),
        Val::SetOf(_, items) => ascending(items) && items_ordered(items, 0),
        Val::MapOf(_, _, entries) => keys_ascending(entries) && entries_ordered(entries, 0),
        Val::Struct(fields) => fields_ordered(fields, 0),
        _ => true,
    }
}

/// Whether each of `items[from..]` is ordered.
pub open spec fn items_ordered(items: Seq<Val>, from: int) -> bool
    decreases items, items.len() - from,
{
    if 0 <= from < items.len() {
        ordered(items[from]) && items_ordered(items, from + 1)
    } else {
        true
    }
}

/// Whether the key and the value of each of `entries[from..]` are ordered.
pub open spec fn entries_ordered(entries: Seq<(Val, Val)>, from: int) -> bool
    decreases entries, entries.len() - from,
{
    if 0 <= from < entries.len() {
        ordered(entries[from].0) && ordered(entries[from].1) && entries_ordered(entries, from + 1)
    } else {
        true
    }
}

/// Whether the value of each of `fields[from..]` is ordered.
pub open spec fn fields_ordered(fields: Seq<(i16, Val)>, from: int) -> bool
    decreases fields, fields.len() - from,
{
    if 0 <= from < fields.len() {
        ordered(fields[from].1) && fields_ordered(fields, from + 1)
    } else {
        true
    }
}

/// Whether what a test expects is ordered.
pub open spec fn expected_ordered(e: ExpectedModel) -> bool {
    match e {
        ExpectedModel::Returns(v) => ordered(v),
        ExpectedModel::ReturnsUnharmed(v) => ordered(v),
        ExpectedModel::Throws(_, v) => ordered(v),
        _ => true,
    }
}

/// Elements that are each ordered are ordered from any place on.
proof fn lemma_items_ordered(items: Seq<Val>, from: int)
    requires
        0 <= from,
        forall|i: int| 0 <= i < items.len() ==> ordered(#[trigger] items[i]),
    ensures
        items_ordered(items, from),
    decreases items.len() - from,
{
    if from < items.len() {
        assert(ordered(items[from]));
        lemma_items_ordered(items, from + 1);
    }
}

/// Entries whose keys and values are each ordered are ordered from any
/// place on.
proof fn lemma_entries_ordered(entries: Seq<(Val, Val)>, from: int)
    requires
        0 <= from,
        forall|i: int|
            0 <= i < entries.len() ==> ordered((#[trigger] entries[i]).0) && ordered(entries[i].1),
    ensures
        entries_ordered(entries, from),
    decreases entries.len() - from,
{
    if from < entries.len() {
        assert(ordered(entries[from].0) && ordered(entries[from].1));
        lemma_entries_ordered(entries, from + 1);
    }
}

/// Fields whose values are each ordered are ordered from any place on.
proof fn lemma_fields_ordered(fields: Seq<(i16, Val)>, from: int)
    requires
        0 <= from,
        forall|i: int| 0 <= i < fields.len() ==> ordered((#[trigger] fields[i]).1),
    ensures
        fields_ordered(fields, from),
        from == 0 ==> ordered(Val::Struct(fields)),
    decreases fields.len() - from,
{
    if from < fields.len() {
        assert(ordered(fields[from].1));
        lemma_fields_ordered(fields, from + 1);
    }
}

/// A list of ordered elements is ordered, and so is a set of them that
/// ascends.
proof fn lemma_container_ordered(t: TType, items: Seq<Val>)
    requires
        forall|i: int| 0 <= i < items.len() ==> ordered(#[trigger] items[i]),
    ensures
        ordered(Val::ListOf(t, items)),
        ascending(items) ==> ordered(Val::SetOf(t, items)),
{
    lemma_items_ordered(items, 0);
}

/// A map of ordered keys and values whose keys ascend is ordered.
proof fn lemma_map_ordered(k: TType, w: TType, entries: Seq<(Val, Val)>)
    requires
        keys_ascending(entries),
        forall|i: int|
            0 <= i < entries.len() ==> ordered((#[trigger] entries[i]).0) && ordered(entries[i].1),
    ensures
        ordered(Val::MapOf(k, w, entries)),
{
    lemma_entries_ordered(entries, 0);
}

/// Ascending numbers make ascending values and ascending keys.
proof fn lemma_numbers_ordered(xs: Seq<i32>, ps: Seq<(i32, i32)>)
    requires
        forall|i: int, j: int| 0 <= i < j < xs.len() ==> xs[i] < xs[j],
        forall|i: int, j: int| 0 <= i < j < ps.len() ==> ps[i].0 < ps[j].0,
    ensures
        ordered(Val::ListOf(TType::I32, i32_values(xs))),
        ordered(Val::SetOf(TType::I32, i32_values(xs))),
        ordered(Val::MapOf(TType::I32, TType::I32, i32_entries(ps))),
{
    lemma_container_ordered(TType::I32, i32_values(xs));
    lemma_map_ordered(TType::I32, TType::I32, i32_entries(ps));
}

/// The string of one character below 128 is the one byte of that character.
proof fn lemma_one_byte_text(s: Seq<char>)
    requires
        s.len() == 1,
        s[0] as u32 <= 0x7F,
    ensures
        encode_utf8(s).len() == 1,
        encode_utf8(s)[0] == s[0] as u32,
{
    let c = s[0] as u32;
    assert((c & 0x7F) as u8 == c) by (bit_vector)
        requires
            c <= 0x7F,
    ;
    let rest = s.drop_first();
    assert(rest.len() == 0);
    assert(encode_utf8(rest).len() == 0);
    assert(vstd::utf8::encode_scalar(c) =~= seq![(c & 0x7F) as u8]);
    assert(encode_utf8(s) == vstd::utf8::encode_scalar(c) + encode_utf8(rest));
}

/// The structs of the test hold no set and no map but the ones named here.
proof fn lemma_structs_ordered(s: Seq<char>)
    ensures
        ordered(text(s)),
        forall|b: i8, i: i32, l: i64| ordered(#[trigger] xtruct(s, b, i, l)),
        forall|code: i32| ordered(#[trigger] xception(code, s)),
        forall|code: i32, b: i8, i: i32, l: i64|
            ordered(#[trigger] xception2(code, xtruct(s, b, i, l))),
        forall|a: i8, b: i8, i: i32, l: i64, j: i32|
            ordered(#[trigger] xtruct2(a, xtruct(s, b, i, l), j)),
{
    assert forall|b: i8, i: i32, l: i64| ordered(#[trigger] xtruct(s, b, i, l)) by {
        lemma_fields_ordered(xtruct(s, b, i, l)->Struct_0, 0);
    }
    assert forall|code: i32| ordered(#[trigger] xception(code, s)) by {
        lemma_fields_ordered(xception(code, s)->Struct_0, 0);
    }
    assert forall|code: i32, b: i8, i: i32, l: i64|
        ordered(#[trigger] xception2(code, xtruct(s, b, i, l))) by {
        lemma_fields_ordered(xception2(code, xtruct(s, b, i, l))->Struct_0, 0);
    }
    assert forall|a: i8, b: i8, i: i32, l: i64, j: i32|
        ordered(#[trigger] xtruct2(a, xtruct(s, b, i, l), j)) by {
        lemma_fields_ordered(xtruct2(a, xtruct(s, b, i, l), j)->Struct_0, 0);
    }
}

/// What `testInsanity` sends and what it answers are ordered.
proof fn lemma_insanity_ordered()
    ensures
        ordered(sent_insanity()),
        ordered(insanity_answer()),
{
    lemma_structs_ordered("foo"@);
    lemma_structs_ordered("bar"@);
    lemma_structs_ordered("baz"@);
    let user_map = seq![(Val::I32(1), Val::I64(4289)), (Val::I32(8), Val::I64(19))];
    lemma_map_ordered(TType::I32, TType::I64, user_map);
    let xtructs = seq![
        xtruct("foo"@, 8, 29, 92384),
        xtruct("bar"@, 28, 2, -1281i64),
        xtruct("baz"@, 0, 3_948_539, -12_938_492i64),
    ];
    lemma_container_ordered(TType::Struct, xtructs);
    let sent = sent_insanity();
    lemma_fields_ordered(sent->Struct_0, 0);
    lemma_map_ordered(TType::I32, TType::I64, Seq::empty());
    lemma_container_ordered(TType::Struct, Seq::empty());
    let empty = insanity(Seq::empty(), Seq::empty());
    lemma_fields_ordered(empty->Struct_0, 0);
    lemma_map_ordered(TType::I32, TType::Struct, seq![(Val::I32(2), sent), (Val::I32(3), sent)]);
    lemma_map_ordered(TType::I32, TType::Struct, seq![(Val::I32(6), empty)]);
    lemma_map_ordered(TType::I64, TType::MapOf, insanity_answer()->MapOf_2);
}

/// What `testMapMap` answers is ordered.
proof fn lemma_map_map_ordered()
    ensures
        ordered(map_map_answer()),
{
    lemma_numbers_ordered(
        Seq::empty(),
        seq![(-4i32, -4i32), (-3i32, -3i32), (-2i32, -2i32), (-1i32, -1i32)],
    );
    lemma_numbers_ordered(Seq::empty(), seq![(1i32, 1i32), (2i32, 2i32), (3i32, 3i32), (4i32, 4i32)]);
    lemma_map_ordered(TType::I32, TType::MapOf, map_map_answer()->MapOf_2);
}

/// The map of strings that the test sends is ordered.
proof fn lemma_string_map_ordered()
    ensures
        ordered(Val::MapOf(TType::Binary, TType::Binary, string_map())),
{
    reveal_strlit("2");
    reveal_strlit("4");
    reveal_strlit("8");
    lemma_one_byte_text("2"@);
    lemma_one_byte_text("4"@);
    lemma_one_byte_text("8"@);
    assert(below(text("2"@), text("4"@)));
    assert(below(text("4"@), text("8"@)));
    assert(below(text("2"@), text("8"@)));
    lemma_map_ordered(TType::Binary, TType::Binary, string_map());
}

/// The arguments of `testMulti` are ordered.
proof fn lemma_multi_ordered()
    ensures
        fields_ordered(multi_args(), 0),
{
    let arg3 = seq![(Val::I16(-148i16), text("buzz"@)), (Val::I16(1298), text("fizz"@))];
    lemma_map_ordered(TType::I16, TType::Binary, arg3);
    lemma_fields_ordered(multi_args(), 0);
}

/// One ordered argument makes ordered arguments.
proof fn lemma_one_arg_ordered(v: Val)
    requires
        ordered(v),
    ensures
        fields_ordered(seq![(1i16, v)], 0),
{
    lemma_fields_ordered(seq![(1i16, v)], 0);
}

proof fn lemma_plan_early_ordered(index: int)
    requires
        0 <= index < 15,
    ensures
        plan(index) matches Some(s) && fields_ordered(s.args, 0) && expected_ordered(s.expected),
{
    lemma_structs_ordered("foo"@);
    let s = plan(index).unwrap();
    lemma_fields_ordered(s.args, 0);
}

proof fn lemma_plan_middle_ordered(index: int)
    requires
        15 <= index < 22,
    ensures
        plan(index) matches Some(s) && fields_ordered(s.args, 0) && expected_ordered(s.expected),
{
    if index == 15 {
        lemma_container_ordered(TType::I32, i32_values(seq![29384i32, 238i32, 32498i32]));
        lemma_one_arg_ordered(Val::ListOf(TType::I32, i32_values(seq![29384i32, 238i32, 32498i32])));
    } else if index == 16 {
        lemma_numbers_ordered(seq![23i32, 3234i32, 293_481i32], Seq::empty());
        lemma_one_arg_ordered(Val::SetOf(TType::I32, i32_values(seq![23i32, 3234i32, 293_481i32])));
    } else if index == 17 {
        lemma_numbers_ordered(Seq::empty(), seq![(2i32, 4i32), (4i32, 6i32), (8i32, 7i32)]);
        lemma_one_arg_ordered(
            Val::MapOf(
                TType::I32,
                TType::I32,
                i32_entries(seq![(2i32, 4i32), (4i32, 6i32), (8i32, 7i32)]),
            ),
        );
    } else if index == 18 {
        lemma_string_map_ordered();
        lemma_one_arg_ordered(Val::MapOf(TType::Binary, TType::Binary, string_map()));
    } else if index == 19 {
        lemma_map_map_ordered();
        lemma_one_arg_ordered(Val::I32(42));
    } else if index == 20 {
        lemma_multi_ordered();
        lemma_structs_ordered("Hello2"@);
    } else {
        lemma_insanity_ordered();
        lemma_one_arg_ordered(sent_insanity());
    }
}

proof fn lemma_plan_late_ordered(index: int)
    requires
        22 <= index < STEPS,
    ensures
        plan(index) matches Some(s) && fields_ordered(s.args, 0) && expected_ordered(s.expected),
{
    lemma_structs_ordered("Xception"@);
    lemma_structs_ordered("This is an Xception"@);
    lemma_structs_ordered("This is an Xception2"@);
    lemma_structs_ordered("RETURNED"@);
    let s = plan(index).unwrap();
    lemma_fields_ordered(s.args, 0);
}

/// Every call of the test sends the elements of each of its sets and the
/// keys of each of its maps in strictly ascending order, and expects its
/// answer in that order: what it sends holds nothing twice, and what it
/// expects is what a sorted set or map of the same elements would be.
pub proof fn lemma_plan_ordered(index: int)
    requires
        0 <= index < STEPS,
    ensures
        plan(index) matches Some(s) && fields_ordered(s.args, 0) && expected_ordered(s.expected),
{
    if index < 15 {
        lemma_plan_early_ordered(index);
    } else if index < 22 {
        lemma_plan_middle_ordered(index);
    } else {
        lemma_plan_late_ordered(index);
    }
}

} // verus!
