//! The calls of the cross-language test, in the order in which they are
//! made, each with what it sends and what it expects.
//!
//! Sets and maps are sent in ascending order of their elements and keys.

use crate::cross_test::{Expected, ExpectedModel};
use crate::declared::{view_declared, view_declared_fields, Decl, Declared};
use crate::dispatch::{Client, Method, MethodModel};
use crate::message::MessageKind;
use crate::multiplex::wire_name;
use crate::value::{
    fields_wf, lemma_wf_unfold, view_entries, view_fields, view_items, TType, Val, Value,
};
use vstd::prelude::*;
use vstd::string::StringExecFns;
use vstd::utf8::encode_utf8;

verus! {

/// One call of the test.
#[derive(Debug, PartialEq, Eq)]
pub struct Step {
    /// Whether the call goes to the second service, which is there only on
    /// a shared connection.
    pub second: bool,
    pub method: String,
    pub args: Vec<(i16, Value)>,
    pub oneway: bool,
    pub shape: Method,
    pub expected: Expected,
}

/// The mathematical model of a [`Step`].
pub struct StepModel {
    pub second: bool,
    pub method: Seq<char>,
    pub args: Seq<(i16, Val)>,
    pub oneway: bool,
    pub shape: MethodModel,
    pub expected: ExpectedModel,
}

impl View for Step {
    type V = StepModel;

    open spec fn view(&self) -> StepModel {
        StepModel {
            second: self.second,
            method: self.method@,
            args: view_fields(&self.args),
            oneway: self.oneway,
            shape: self.shape@,
            expected: self.expected@,
        }
    }
}

/// How many calls the test makes.
pub const STEPS: usize = 30;

/// The name of the service that the test calls.
pub open spec fn first_service() -> Seq<char> {
    "ThriftTest"@
}

/// The name of the second service on a shared connection.
pub open spec fn second_service() -> Seq<char> {
    "SecondService"@
}

/// The name under which a step's service shares a connection.
pub fn service_name(second: bool) -> (name: String)
    ensures
        name@ == (if second {
            second_service()
        } else {
            first_service()
        }),
{
    if second {
        String::from_str("SecondService")
    } else {
        String::from_str("ThriftTest")
    }
}

/// The value of a string.
pub open spec fn text(s: Seq<char>) -> Val {
    Val::Binary(encode_utf8(s))
}

/// The values of 32-bit numbers.
pub open spec fn i32_values(xs: Seq<i32>) -> Seq<Val> {
    Seq::new(xs.len(), |i: int| Val::I32(xs[i]))
}

/// The entries of a map from 32-bit numbers to 32-bit numbers.
pub open spec fn i32_entries(xs: Seq<(i32, i32)>) -> Seq<(Val, Val)> {
    Seq::new(xs.len(), |i: int| (Val::I32(xs[i].0), Val::I32(xs[i].1)))
}

/// The struct `Xtruct`.
pub open spec fn xtruct(string_thing: Seq<char>, byte_thing: i8, i32_thing: i32, i64_thing: i64)
    -> Val {
    Val::Struct(
        seq![
            (1i16, text(string_thing)),
            (4i16, Val::I8(byte_thing)),
            (9i16, Val::I32(i32_thing)),
            (11i16, Val::I64(i64_thing)),
        ],
    )
}

/// The struct `Xtruct2`.
pub open spec fn xtruct2(byte_thing: i8, struct_thing: Val, i32_thing: i32) -> Val {
    Val::Struct(seq![(1i16, Val::I8(byte_thing)), (2i16, struct_thing), (3i16, Val::I32(i32_thing))])
}

/// The struct `Insanity`.
pub open spec fn insanity(user_map: Seq<(Val, Val)>, xtructs: Seq<Val>) -> Val {
    Val::Struct(
        seq![
            (1i16, Val::MapOf(TType::I32, TType::I64, user_map)),
            (2i16, Val::ListOf(TType::Struct, xtructs)),
        ],
    )
}

/// The `Insanity` that the test sends.
pub open spec fn sent_insanity() -> Val {
    insanity(
        seq![(Val::I32(1), Val::I64(4289)), (Val::I32(8), Val::I64(19))],
        seq![
            xtruct("foo"@, 8, 29, 92384),
            xtruct("bar"@, 28, 2, -1281i64),
            xtruct("baz"@, 0, 3_948_539, -12_938_492i64),
        ],
    )
}

/// What `testInsanity` answers.
pub open spec fn insanity_answer() -> Val {
    Val::MapOf(
        TType::I64,
        TType::MapOf,
        seq![
            (
                Val::I64(1),
                Val::MapOf(
                    TType::I32,
                    TType::Struct,
                    seq![(Val::I32(2), sent_insanity()), (Val::I32(3), sent_insanity())],
                ),
            ),
            (
                Val::I64(2),
                Val::MapOf(
                    TType::I32,
                    TType::Struct,
                    seq![(Val::I32(6), insanity(Seq::empty(), Seq::empty()))],
                ),
            ),
        ],
    )
}

/// What `testMapMap` answers.
pub open spec fn map_map_answer() -> Val {
    Val::MapOf(
        TType::I32,
        TType::MapOf,
        seq![
            (
                Val::I32(-4i32),
                Val::MapOf(
                    TType::I32,
                    TType::I32,
                    i32_entries(seq![(-4i32, -4i32), (-3i32, -3i32), (-2i32, -2i32), (-1i32, -1i32)]),
                ),
            ),
            (
                Val::I32(4),
                Val::MapOf(
                    TType::I32,
                    TType::I32,
                    i32_entries(seq![(1i32, 1i32), (2i32, 2i32), (3i32, 3i32), (4i32, 4i32)]),
                ),
            ),
        ],
    )
}

/// The exception `Xception`.
pub open spec fn xception(error_code: i32, message: Seq<char>) -> Val {
    Val::Struct(seq![(1i16, Val::I32(error_code)), (2i16, text(message))])
}

/// The exception `Xception2`.
pub open spec fn xception2(error_code: i32, struct_thing: Val) -> Val {
    Val::Struct(seq![(1i16, Val::I32(error_code)), (2i16, struct_thing)])
}

/// A struct of which one field is declared.
pub open spec fn one_field(id: i16, d: Decl) -> Decl {
    Decl::Fields(seq![(id, d)])
}

/// Where the strings of an `Xtruct` are.
pub open spec fn xtruct_decl() -> Decl {
    one_field(1, Decl::Text)
}

/// Where the strings of an `Xtruct2` are.
pub open spec fn xtruct2_decl() -> Decl {
    one_field(2, xtruct_decl())
}

/// Where the strings of an `Xception` are.
pub open spec fn xception_decl() -> Decl {
    one_field(2, Decl::Text)
}

/// Where the strings of an `Xception2` are.
pub open spec fn xception2_decl() -> Decl {
    one_field(2, xtruct_decl())
}

/// Where the strings of a map from strings to strings are.
pub open spec fn string_map_decl() -> Decl {
    Decl::Entries(Box::new(Decl::Text), Box::new(Decl::Text))
}

/// Where the strings are in what `testInsanity` answers: in the `Xtruct`s
/// of each `Insanity` of the inner maps.
pub open spec fn insanity_answer_decl() -> Decl {
    Decl::Entries(
        Box::new(Decl::Opaque),
        Box::new(
            Decl::Entries(
                Box::new(Decl::Opaque),
                Box::new(one_field(2, Decl::Elements(Box::new(xtruct_decl())))),
            ),
        ),
    )
}

/// A method that returns a value and declares no exception.
pub open spec fn gives(d: Decl) -> MethodModel {
    MethodModel { returns: Some(d), throws: Seq::empty() }
}

/// A method that returns nothing and declares no exception.
pub open spec fn gives_nothing() -> MethodModel {
    MethodModel { returns: None, throws: Seq::empty() }
}

/// What `testException` gives back.
pub open spec fn exception_shape() -> MethodModel {
    MethodModel { returns: None, throws: seq![xception_decl()] }
}

/// What `testMultiException` gives back.
pub open spec fn multi_exception_shape() -> MethodModel {
    MethodModel { returns: Some(xtruct_decl()), throws: seq![xception_decl(), xception2_decl()] }
}

/// The call, with its result declared.
pub open spec fn typed(step: StepModel, d: Decl) -> StepModel {
    StepModel { shape: MethodModel { returns: Some(d), ..step.shape }, ..step }
}

/// A call to the first service that awaits a reply.
pub open spec fn call(
    method: Seq<char>,
    args: Seq<(i16, Val)>,
    shape: MethodModel,
    expected: ExpectedModel,
) -> StepModel {
    StepModel { second: false, method, args, oneway: false, shape, expected }
}

/// A call that sends one value and expects it back.
pub open spec fn echo(method: Seq<char>, v: Val) -> StepModel {
    call(method, seq![(1i16, v)], gives(Decl::Opaque), ExpectedModel::Returns(v))
}

/// A call that sends one value and expects another.
pub open spec fn query(method: Seq<char>, v: Val, answer: Val) -> StepModel {
    call(
        method,
        seq![(1i16, v)],
        gives(Decl::Opaque),
        ExpectedModel::Returns(answer),
    )
}

/// A call of `testVoid`.
pub open spec fn void_call() -> StepModel {
    call(
        "testVoid"@,
        Seq::empty(),
        gives_nothing(),
        ExpectedModel::Nothing,
    )
}

/// A call of `testException`.
pub open spec fn exception_call(arg: Seq<char>, expected: ExpectedModel) -> StepModel {
    call(
        "testException"@,
        seq![(1i16, text(arg))],
        exception_shape(),
        expected,
    )
}

/// A call of `testMultiException`.
pub open spec fn multi_exception_call(arg0: Seq<char>, arg1: Seq<char>, expected: ExpectedModel)
    -> StepModel {
    call(
        "testMultiException"@,
        seq![(1i16, text(arg0)), (2i16, text(arg1))],
        multi_exception_shape(),
        expected,
    )
}

/// The arguments of `testMulti`.
pub open spec fn multi_args() -> Seq<(i16, Val)> {
    seq![
        (1i16, Val::I8(1)),
        (2i16, Val::I32(-123_948i32)),
        (3i16, Val::I64(-19_234_123_981i64)),
        (
            4i16,
            Val::MapOf(
                TType::I16,
                TType::Binary,
                seq![(Val::I16(-148i16), text("buzz"@)), (Val::I16(1298), text("fizz"@))],
            ),
        ),
        (5i16, Val::I32(8)),
        (6i16, Val::I16(81)),
    ]
}

/// The bytes that `testBinary` sends.
pub open spec fn binary_thing() -> Seq<u8> {
    seq![0x77u8, 0x30u8, 0x30u8, 0x74u8, 0x21u8, 0x20u8, 0x52u8, 0x75u8, 0x73u8, 0x74u8]
}

/// The entries that `testStringMap` sends.
pub open spec fn string_map() -> Seq<(Val, Val)> {
    seq![
        (text("2"@), text("4_string"@)),
        (text("4"@), text("6_string"@)),
        (text("8"@), text("7_string"@)),
    ]
}

/// The call that the test makes at `index`, counted from zero; none from
/// [`STEPS`] on.
pub open spec fn plan(index: int) -> Option<StepModel> {
    if index == 0 {
        Some(void_call())
    } else if index == 1 {
        Some(typed(echo("testString"@, text("thing"@)), Decl::Text))
    } else if index == 2 {
        Some(echo("testUuid"@, Val::Uuid(0x0001_0203_0405_0607_0809_0a0b_0c0d_0e0f)))
    } else if index == 3 {
        Some(echo("testBool"@, Val::Bool(true)))
    } else if index == 4 {
        Some(echo("testBool"@, Val::Bool(false)))
    } else if index == 5 {
        Some(echo("testByte"@, Val::I8(42)))
    } else if index == 6 {
        Some(echo("testI32"@, Val::I32(1_159_348_374)))
    } else if index == 7 {
        Some(echo("testI64"@, Val::I64(i64::MIN)))
    } else if index == 8 {
        Some(echo("testDouble"@, Val::Double(0x4045_35C2_8F5C_28F6)))
    } else if index == 9 {
        Some(echo("testTypedef"@, Val::I64(2348)))
    } else if index == 10 {
        Some(echo("testEnum"@, Val::I32(2)))
    } else if index == 11 {
        Some(echo("testBinary"@, Val::Binary(binary_thing())))
    } else if index == 12 {
        Some(typed(echo("testStruct"@, xtruct("foo"@, 12, 219_129, 12_938_492_818)), xtruct_decl()))
    } else if index == 13 {
        Some(
            typed(
                echo(
                    "testNest"@,
                    xtruct2(32, xtruct("foo"@, 1, 324_382_098, 12_938_492_818), 293_481_098),
                ),
                xtruct2_decl(),
            ),
        )
    } else if index == 14 {
        Some(
            StepModel {
                second: true,
                ..typed(
                    query(
                        "secondtestString"@,
                        text("test_string"@),
                        text("testString(\"test_string\")"@),
                    ),
                    Decl::Text,
                )
            },
        )
    } else if index == 15 {
        Some(
            echo(
                "testList"@,
                Val::ListOf(TType::I32, i32_values(seq![29384i32, 238i32, 32498i32])),
            ),
        )
    } else if index == 16 {
        Some(
            echo("testSet"@, Val::SetOf(TType::I32, i32_values(seq![23i32, 3234i32, 293_481i32]))),
        )
    } else if index == 17 {
        Some(
            echo(
                "testMap"@,
                Val::MapOf(
                    TType::I32,
                    TType::I32,
                    i32_entries(seq![(2i32, 4i32), (4i32, 6i32), (8i32, 7i32)]),
                ),
            ),
        )
    } else if index == 18 {
        Some(
            typed(
                echo("testStringMap"@, Val::MapOf(TType::Binary, TType::Binary, string_map())),
                string_map_decl(),
            ),
        )
    } else if index == 19 {
        Some(query("testMapMap"@, Val::I32(42), map_map_answer()))
    } else if index == 20 {
        Some(
            call(
                "testMulti"@,
                multi_args(),
                gives(xtruct_decl()),
                ExpectedModel::Returns(xtruct("Hello2"@, 1, -123_948i32, -19_234_123_981i64)),
            ),
        )
    } else if index == 21 {
        Some(
            typed(
                query("testInsanity"@, sent_insanity(), insanity_answer()),
                insanity_answer_decl(),
            ),
        )
    } else if index == 22 {
        Some(
            exception_call("Xception"@, ExpectedModel::Throws(1, xception(1001, "Xception"@))),
        )
    } else if index == 23 {
        Some(exception_call("TException"@, ExpectedModel::Refusal))
    } else if index == 24 {
        Some(exception_call("foo"@, ExpectedModel::Succeeds))
    } else if index == 25 {
        Some(
            multi_exception_call(
                "Xception"@,
                "ignored"@,
                ExpectedModel::Throws(1, xception(1001, "This is an Xception"@)),
            ),
        )
    } else if index == 26 {
        Some(
            multi_exception_call(
                "Xception2"@,
                "ignored"@,
                ExpectedModel::Throws(
                    2,
                    xception2(2002, xtruct("This is an Xception2"@, 0, 0, 0)),
                ),
            ),
        )
    } else if index == 27 {
        Some(
            multi_exception_call(
                "haha"@,
                "RETURNED"@,
                ExpectedModel::ReturnsUnharmed(xtruct("RETURNED"@, 0, 0, 0)),
            ),
        )
    } else if index == 28 {
        Some(
            StepModel {
                oneway: true,
                ..call(
                    "testOneway"@,
                    seq![(1i16, Val::I32(1))],
                    gives_nothing(),
                    ExpectedModel::Nothing,
                )
            },
        )
    } else if index == 29 {
        Some(void_call())
    } else {
        None
    }
}

/// The values of 32-bit numbers.
pub fn i32_items(xs: &Vec<i32>) -> (r: Vec<Value>)
    ensures
        view_items(&r) == i32_values(xs@),
{
    let mut r: Vec<Value> = Vec::new();
    let mut i: usize = 0;
    while i < xs.len()
        invariant
            i <= xs.len(),
            r.len() == i,
            forall|j: int| 0 <= j < i ==> (#[trigger] r[j])@ == Val::I32(xs[j]),
        decreases xs.len() - i,
    {
        r.push(Value::I32(xs[i]));
        i += 1;
    }
    assert(view_items(&r) =~= i32_values(xs@));
    r
}

/// The entries of a map from 32-bit numbers to 32-bit numbers.
pub fn i32_pairs(xs: &Vec<(i32, i32)>) -> (r: Vec<(Value, Value)>)
    ensures
        view_entries(&r) == i32_entries(xs@),
{
    let mut r: Vec<(Value, Value)> = Vec::new();
    let mut i: usize = 0;
    while i < xs.len()
        invariant
            i <= xs.len(),
            r.len() == i,
            forall|j: int|
                0 <= j < i ==> (#[trigger] r[j]).0@ == Val::I32(xs[j].0) && r[j].1@ == Val::I32(
                    xs[j].1,
                ),
        decreases xs.len() - i,
    {
        r.push((Value::I32(xs[i].0), Value::I32(xs[i].1)));
        i += 1;
    }
    assert(view_entries(&r) =~= i32_entries(xs@));
    r
}

/// Three numbers.
fn three(a: i32, b: i32, c: i32) -> (r: Vec<i32>)
    ensures
        r@ == seq![a, b, c],
{
    let mut r: Vec<i32> = Vec::new();
    r.push(a);
    r.push(b);
    r.push(c);
    assert(r@ =~= seq![a, b, c]);
    r
}

/// The pairs of `from`, `from + 1`, `from + 2` and `from + 3`, each with
/// itself.
fn four_twins(from: i32) -> (r: Vec<(i32, i32)>)
    requires
        -8 <= from <= 8,
    ensures
        r@ == seq![
            (from, from),
            ((from + 1) as i32, (from + 1) as i32),
            ((from + 2) as i32, (from + 2) as i32),
            ((from + 3) as i32, (from + 3) as i32),
        ],
{
    let mut r: Vec<(i32, i32)> = Vec::new();
    r.push((from, from));
    r.push((from + 1, from + 1));
    r.push((from + 2, from + 2));
    r.push((from + 3, from + 3));
    assert(r@ =~= seq![
        (from, from),
        ((from + 1) as i32, (from + 1) as i32),
        ((from + 2) as i32, (from + 2) as i32),
        ((from + 3) as i32, (from + 3) as i32),
    ]);
    r
}

/// The struct `Xtruct`.
pub fn make_xtruct(string_thing: &str, byte_thing: i8, i32_thing: i32, i64_thing: i64) -> (v: Value)
    ensures
        v@ == xtruct(string_thing@, byte_thing, i32_thing, i64_thing),
{
    let mut fields: Vec<(i16, Value)> = Vec::new();
    fields.push((1, Value::text(string_thing)));
    fields.push((4, Value::I8(byte_thing)));
    fields.push((9, Value::I32(i32_thing)));
    fields.push((11, Value::I64(i64_thing)));
    assert(view_fields(&fields) =~= seq![
        (1i16, text(string_thing@)),
        (4i16, Val::I8(byte_thing)),
        (9i16, Val::I32(i32_thing)),
        (11i16, Val::I64(i64_thing)),
    ]);
    Value::Struct(fields)
}

/// The struct `Xtruct2`.
pub fn make_xtruct2(byte_thing: i8, struct_thing: Value, i32_thing: i32) -> (v: Value)
    ensures
        v@ == xtruct2(byte_thing, struct_thing@, i32_thing),
{
    let ghost inner = struct_thing@;
    let mut fields: Vec<(i16, Value)> = Vec::new();
    fields.push((1, Value::I8(byte_thing)));
    fields.push((2, struct_thing));
    fields.push((3, Value::I32(i32_thing)));
    assert(view_fields(&fields) =~= seq![
        (1i16, Val::I8(byte_thing)),
        (2i16, inner),
        (3i16, Val::I32(i32_thing)),
    ]);
    Value::Struct(fields)
}

/// A struct of two fields, numbered 1 and 2.
fn pair_struct(first: Value, second: Value) -> (v: Value)
    ensures
        v@ == Val::Struct(seq![(1i16, first@), (2i16, second@)]),
{
    let ghost a = first@;
    let ghost b = second@;
    let mut fields: Vec<(i16, Value)> = Vec::new();
    fields.push((1, first));
    fields.push((2, second));
    assert(view_fields(&fields) =~= seq![(1i16, a), (2i16, b)]);
    Value::Struct(fields)
}

/// The `Insanity` that the test sends.
pub fn make_sent_insanity() -> (v: Value)
    ensures
        v@ == sent_insanity(),
{
    let mut user_map: Vec<(Value, Value)> = Vec::new();
    user_map.push((Value::I32(1), Value::I64(4289)));
    user_map.push((Value::I32(8), Value::I64(19)));
    assert(view_entries(&user_map) =~= seq![
        (Val::I32(1), Val::I64(4289)),
        (Val::I32(8), Val::I64(19)),
    ]);
    let mut xtructs: Vec<Value> = Vec::new();
    xtructs.push(make_xtruct("foo", 8, 29, 92384));
    xtructs.push(make_xtruct("bar", 28, 2, -1281i64));
    xtructs.push(make_xtruct("baz", 0, 3_948_539, -12_938_492i64));
    assert(view_items(&xtructs) =~= seq![
        xtruct("foo"@, 8, 29, 92384),
        xtruct("bar"@, 28, 2, -1281i64),
        xtruct("baz"@, 0, 3_948_539, -12_938_492i64),
    ]);
    pair_struct(
        Value::MapOf(TType::I32, TType::I64, user_map),
        Value::ListOf(TType::Struct, xtructs),
    )
}

/// What `testInsanity` answers.
pub fn make_insanity_answer() -> (v: Value)
    ensures
        v@ == insanity_answer(),
{
    let mut first: Vec<(Value, Value)> = Vec::new();
    first.push((Value::I32(2), make_sent_insanity()));
    first.push((Value::I32(3), make_sent_insanity()));
    assert(view_entries(&first) =~= seq![
        (Val::I32(2), sent_insanity()),
        (Val::I32(3), sent_insanity()),
    ]);
    let no_entries: Vec<(Value, Value)> = Vec::new();
    let no_items: Vec<Value> = Vec::new();
    assert(view_entries(&no_entries) =~= Seq::<(Val, Val)>::empty());
    assert(view_items(&no_items) =~= Seq::<Val>::empty());
    let empty = pair_struct(
        Value::MapOf(TType::I32, TType::I64, no_entries),
        Value::ListOf(TType::Struct, no_items),
    );
    let mut second: Vec<(Value, Value)> = Vec::new();
    second.push((Value::I32(6), empty));
    assert(view_entries(&second) =~= seq![
        (Val::I32(6), insanity(Seq::empty(), Seq::empty())),
    ]);
    let one = Value::MapOf(TType::I32, TType::Struct, first);
    let two = Value::MapOf(TType::I32, TType::Struct, second);
    let ghost a = one@;
    let ghost b = two@;
    let mut outer: Vec<(Value, Value)> = Vec::new();
    outer.push((Value::I64(1), one));
    outer.push((Value::I64(2), two));
    assert(view_entries(&outer) =~= seq![(Val::I64(1), a), (Val::I64(2), b)]);
    Value::MapOf(TType::I64, TType::MapOf, outer)
}

/// What `testMapMap` answers.
pub fn make_map_map_answer() -> (v: Value)
    ensures
        v@ == map_map_answer(),
{
    let low = four_twins(-4);
    let high = four_twins(1);
    assert(low@ =~= seq![(-4i32, -4i32), (-3i32, -3i32), (-2i32, -2i32), (-1i32, -1i32)]);
    assert(high@ =~= seq![(1i32, 1i32), (2i32, 2i32), (3i32, 3i32), (4i32, 4i32)]);
    let one = Value::MapOf(TType::I32, TType::I32, i32_pairs(&low));
    let two = Value::MapOf(TType::I32, TType::I32, i32_pairs(&high));
    let ghost a = one@;
    let ghost b = two@;
    let mut outer: Vec<(Value, Value)> = Vec::new();
    outer.push((Value::I32(-4), one));
    outer.push((Value::I32(4), two));
    assert(view_entries(&outer) =~= seq![(Val::I32(-4i32), a), (Val::I32(4), b)]);
    Value::MapOf(TType::I32, TType::MapOf, outer)
}

/// The arguments of `testMulti`.
pub fn make_multi_args() -> (args: Vec<(i16, Value)>)
    ensures
        view_fields(&args) == multi_args(),
{
    let mut arg3: Vec<(Value, Value)> = Vec::new();
    arg3.push((Value::I16(-148i16), Value::text("buzz")));
    arg3.push((Value::I16(1298), Value::text("fizz")));
    assert(view_entries(&arg3) =~= seq![
        (Val::I16(-148i16), text("buzz"@)),
        (Val::I16(1298), text("fizz"@)),
    ]);
    let mut args: Vec<(i16, Value)> = Vec::new();
    args.push((1, Value::I8(1)));
    args.push((2, Value::I32(-123_948i32)));
    args.push((3, Value::I64(-19_234_123_981i64)));
    args.push((4, Value::MapOf(TType::I16, TType::Binary, arg3)));
    args.push((5, Value::I32(8)));
    args.push((6, Value::I16(81)));
    assert(view_fields(&args) =~= multi_args());
    args
}

/// The bytes that `testBinary` sends.
pub fn make_binary_thing() -> (v: Value)
    ensures
        v@ == Val::Binary(binary_thing()),
{
    let mut b: Vec<u8> = Vec::new();
    b.push(0x77);
    b.push(0x30);
    b.push(0x30);
    b.push(0x74);
    b.push(0x21);
    b.push(0x20);
    b.push(0x52);
    b.push(0x75);
    b.push(0x73);
    b.push(0x74);
    assert(b@ =~= binary_thing());
    Value::Binary(b)
}

/// The map that `testStringMap` sends.
pub fn make_string_map() -> (v: Value)
    ensures
        v@ == Val::MapOf(TType::Binary, TType::Binary, string_map()),
{
    let mut entries: Vec<(Value, Value)> = Vec::new();
    entries.push((Value::text("2"), Value::text("4_string")));
    entries.push((Value::text("4"), Value::text("6_string")));
    entries.push((Value::text("8"), Value::text("7_string")));
    assert(view_entries(&entries) =~= string_map());
    Value::MapOf(TType::Binary, TType::Binary, entries)
}

/// A struct of which one field is declared.
pub fn make_one_field(id: i16, d: Declared) -> (r: Declared)
    ensures
        r@ == one_field(id, d@),
{
    let ghost model = d@;
    let mut fields: Vec<(i16, Declared)> = Vec::new();
    fields.push((id, d));
    assert(view_declared_fields(&fields) =~= seq![(id, model)]);
    Declared::Fields(fields)
}

/// A value of which nothing is declared.
pub fn make_opaque() -> (r: Declared)
    ensures
        r@ == Decl::Opaque,
{
    Declared::Opaque
}

/// A string.
pub fn make_text() -> (r: Declared)
    ensures
        r@ == Decl::Text,
{
    Declared::Text
}

/// A list or a set whose elements are declared.
pub fn make_elements(e: Declared) -> (r: Declared)
    ensures
        r@ == Decl::Elements(Box::new(e@)),
{
    Declared::Elements(Box::new(e))
}

/// A map whose keys and values are declared.
pub fn make_entries(k: Declared, w: Declared) -> (r: Declared)
    ensures
        r@ == Decl::Entries(Box::new(k@), Box::new(w@)),
{
    Declared::Entries(Box::new(k), Box::new(w))
}

/// Where the strings of an `Xtruct` are.
pub fn make_xtruct_decl() -> (r: Declared)
    ensures
        r@ == xtruct_decl(),
{
    make_one_field(1, make_text())
}

/// Where the strings are in what `testInsanity` answers.
pub fn make_insanity_answer_decl() -> (r: Declared)
    ensures
        r@ == insanity_answer_decl(),
{
    let insanity = make_one_field(2, make_elements(make_xtruct_decl()));
    let inner = make_entries(make_opaque(), insanity);
    make_entries(make_opaque(), inner)
}

/// A method that returns a value and declares no exception.
pub fn make_gives(d: Declared) -> (m: Method)
    ensures
        m@ == gives(d@),
{
    let throws: Vec<Declared> = Vec::new();
    assert(view_declared(&throws) =~= Seq::<Decl>::empty());
    Method { returns: Some(d), throws }
}

/// A method that returns nothing and declares no exception.
pub fn make_gives_nothing() -> (m: Method)
    ensures
        m@ == gives_nothing(),
{
    let throws: Vec<Declared> = Vec::new();
    assert(view_declared(&throws) =~= Seq::<Decl>::empty());
    Method { returns: None, throws }
}

/// What `testException` gives back.
pub fn make_exception_shape() -> (m: Method)
    ensures
        m@ == exception_shape(),
{
    let mut throws: Vec<Declared> = Vec::new();
    throws.push(make_one_field(2, make_text()));
    assert(view_declared(&throws) =~= seq![xception_decl()]);
    Method { returns: None, throws }
}

/// What `testMultiException` gives back.
pub fn make_multi_exception_shape() -> (m: Method)
    ensures
        m@ == multi_exception_shape(),
{
    let mut throws: Vec<Declared> = Vec::new();
    throws.push(make_one_field(2, make_text()));
    throws.push(make_one_field(2, make_xtruct_decl()));
    assert(view_declared(&throws) =~= seq![xception_decl(), xception2_decl()]);
    Method { returns: Some(make_xtruct_decl()), throws }
}

/// The call, with its result declared.
pub fn typed_step(step: Step, d: Declared) -> (s: Step)
    ensures
        s@ == typed(step@, d@),
{
    let mut s = step;
    s.shape.returns = Some(d);
    s
}

/// A call to the first service that awaits a reply.
pub fn make_call(method: &str, args: Vec<(i16, Value)>, shape: Method, expected: Expected) -> (s:
    Step)
    ensures
        s@ == call(method@, view_fields(&args), shape@, expected@),
{
    Step { second: false, method: String::from_str(method), args, oneway: false, shape, expected }
}

/// The arguments of a call with one argument.
fn one_arg(v: Value) -> (args: Vec<(i16, Value)>)
    ensures
        view_fields(&args) == seq![(1i16, v@)],
{
    let ghost model = v@;
    let mut args: Vec<(i16, Value)> = Vec::new();
    args.push((1, v));
    assert(view_fields(&args) =~= seq![(1i16, model)]);
    args
}

/// A call that sends one value and expects another.
pub fn make_query(method: &str, v: Value, answer: Value) -> (s: Step)
    ensures
        s@ == query(method@, v@, answer@),
{
    make_call(method, one_arg(v), make_gives(make_opaque()), Expected::Returns(answer))
}

/// A call of `testVoid`.
pub fn make_void_call() -> (s: Step)
    ensures
        s@ == void_call(),
{
    let args: Vec<(i16, Value)> = Vec::new();
    assert(view_fields(&args) =~= Seq::<(i16, Val)>::empty());
    make_call("testVoid", args, make_gives_nothing(), Expected::Nothing)
}

/// A call of `testException`.
pub fn make_exception_call(arg: &str, expected: Expected) -> (s: Step)
    ensures
        s@ == exception_call(arg@, expected@),
{
    make_call(
        "testException",
        one_arg(Value::text(arg)),
        make_exception_shape(),
        expected,
    )
}

/// A call of `testMultiException`.
pub fn make_multi_exception_call(arg0: &str, arg1: &str, expected: Expected) -> (s: Step)
    ensures
        s@ == multi_exception_call(arg0@, arg1@, expected@),
{
    let mut args: Vec<(i16, Value)> = Vec::new();
    args.push((1, Value::text(arg0)));
    args.push((2, Value::text(arg1)));
    assert(view_fields(&args) =~= seq![(1i16, text(arg0@)), (2i16, text(arg1@))]);
    make_call("testMultiException", args, make_multi_exception_shape(), expected)
}

/// The exception `Xception`.
pub fn make_xception(error_code: i32, message: &str) -> (v: Value)
    ensures
        v@ == xception(error_code, message@),
{
    pair_struct(Value::I32(error_code), Value::text(message))
}

/// The calls with plain values and structs.
fn early_step(index: usize) -> (s: Step)
    requires
        index < 15,
    ensures
        plan(index as int) == Some(s@),
{
    if index == 0 {
        make_void_call()
    } else if index == 1 {
        typed_step(
            make_query("testString", Value::text("thing"), Value::text("thing")),
            make_text(),
        )
    } else if index == 2 {
        make_query(
            "testUuid",
            Value::Uuid(0x0001_0203_0405_0607_0809_0a0b_0c0d_0e0f),
            Value::Uuid(0x0001_0203_0405_0607_0809_0a0b_0c0d_0e0f),
        )
    } else if index == 3 {
        make_query("testBool", Value::Bool(true), Value::Bool(true))
    } else if index == 4 {
        make_query("testBool", Value::Bool(false), Value::Bool(false))
    } else if index == 5 {
        make_query("testByte", Value::I8(42), Value::I8(42))
    } else if index == 6 {
        make_query("testI32", Value::I32(1_159_348_374), Value::I32(1_159_348_374))
    } else if index == 7 {
        make_query("testI64", Value::I64(i64::MIN), Value::I64(i64::MIN))
    } else if index == 8 {
        make_query(
            "testDouble",
            Value::Double(0x4045_35C2_8F5C_28F6),
            Value::Double(0x4045_35C2_8F5C_28F6),
        )
    } else if index == 9 {
        make_query("testTypedef", Value::I64(2348), Value::I64(2348))
    } else if index == 10 {
        make_query("testEnum", Value::I32(2), Value::I32(2))
    } else if index == 11 {
        make_query("testBinary", make_binary_thing(), make_binary_thing())
    } else if index == 12 {
        typed_step(
            make_query(
                "testStruct",
                make_xtruct("foo", 12, 219_129, 12_938_492_818),
                make_xtruct("foo", 12, 219_129, 12_938_492_818),
            ),
            make_xtruct_decl(),
        )
    } else if index == 13 {
        typed_step(
            make_query(
                "testNest",
                make_xtruct2(32, make_xtruct("foo", 1, 324_382_098, 12_938_492_818), 293_481_098),
                make_xtruct2(32, make_xtruct("foo", 1, 324_382_098, 12_938_492_818), 293_481_098),
            ),
            make_one_field(2, make_xtruct_decl()),
        )
    } else {
        let mut s = typed_step(
            make_query(
                "secondtestString",
                Value::text("test_string"),
                Value::text("testString(\"test_string\")"),
            ),
            make_text(),
        );
        s.second = true;
        s
    }
}

/// The call at 15.
fn list_step() -> (s: Step)
    ensures
        plan(15) == Some(s@),
{
    make_query(
        "testList",
        Value::ListOf(TType::I32, i32_items(&three(29384, 238, 32498))),
        Value::ListOf(TType::I32, i32_items(&three(29384, 238, 32498))),
    )
}

/// The call at 16.
fn set_step() -> (s: Step)
    ensures
        plan(16) == Some(s@),
{
    make_query(
        "testSet",
        Value::SetOf(TType::I32, i32_items(&three(23, 3234, 293_481))),
        Value::SetOf(TType::I32, i32_items(&three(23, 3234, 293_481))),
    )
}

/// The call at 17.
fn map_step() -> (s: Step)
    ensures
        plan(17) == Some(s@),
{
    let mut a: Vec<(i32, i32)> = Vec::new();
    a.push((2, 4));
    a.push((4, 6));
    a.push((8, 7));
    assert(a@ =~= seq![(2i32, 4i32), (4i32, 6i32), (8i32, 7i32)]);
    make_query(
        "testMap",
        Value::MapOf(TType::I32, TType::I32, i32_pairs(&a)),
        Value::MapOf(TType::I32, TType::I32, i32_pairs(&a)),
    )
}

/// The call at 18.
fn string_map_step() -> (s: Step)
    ensures
        plan(18) == Some(s@),
{
    typed_step(
        make_query("testStringMap", make_string_map(), make_string_map()),
        make_entries(make_text(), make_text()),
    )
}

/// The call at 19.
fn map_map_step() -> (s: Step)
    ensures
        plan(19) == Some(s@),
{
    make_query("testMapMap", Value::I32(42), make_map_map_answer())
}

/// The call at 20.
fn multi_step() -> (s: Step)
    ensures
        plan(20) == Some(s@),
{
    make_call(
        "testMulti",
        make_multi_args(),
        make_gives(make_xtruct_decl()),
        Expected::Returns(make_xtruct("Hello2", 1, -123_948i32, -19_234_123_981i64)),
    )
}

/// The call at 21.
fn insanity_step() -> (s: Step)
    ensures
        plan(21) == Some(s@),
{
    typed_step(
        make_query("testInsanity", make_sent_insanity(), make_insanity_answer()),
        make_insanity_answer_decl(),
    )
}

/// The calls with containers.
fn middle_step(index: usize) -> (s: Step)
    requires
        15 <= index < 22,
    ensures
        plan(index as int) == Some(s@),
{
    if index == 15 {
        list_step()
    } else if index == 16 {
        set_step()
    } else if index == 17 {
        map_step()
    } else if index == 18 {
        string_map_step()
    } else if index == 19 {
        map_map_step()
    } else if index == 20 {
        multi_step()
    } else {
        insanity_step()
    }
}

/// The calls with exceptions, and the last two.
fn late_step(index: usize) -> (s: Step)
    requires
        22 <= index < STEPS,
    ensures
        plan(index as int) == Some(s@),
{
    if index == 22 {
        make_exception_call("Xception", Expected::Throws(1, make_xception(1001, "Xception")))
    } else if index == 23 {
        make_exception_call("TException", Expected::Refusal)
    } else if index == 24 {
        make_exception_call("foo", Expected::Succeeds)
    } else if index == 25 {
        make_multi_exception_call(
            "Xception",
            "ignored",
            Expected::Throws(1, make_xception(1001, "This is an Xception")),
        )
    } else if index == 26 {
        make_multi_exception_call(
            "Xception2",
            "ignored",
            Expected::Throws(
                2,
                pair_struct(Value::I32(2002), make_xtruct("This is an Xception2", 0, 0, 0)),
            ),
        )
    } else if index == 27 {
        make_multi_exception_call(
            "haha",
            "RETURNED",
            Expected::ReturnsUnharmed(make_xtruct("RETURNED", 0, 0, 0)),
        )
    } else if index == 28 {
        let mut s = make_call(
            "testOneway",
            one_arg(Value::I32(1)),
            make_gives_nothing(),
            Expected::Nothing,
        );
        s.oneway = true;
        s
    } else {
        make_void_call()
    }
}

/// The call that the test makes at `index`, counted from zero; none from
/// [`STEPS`] on.
pub fn step(index: usize) -> (r: Option<Step>)
    ensures
        match r {
            Some(s) => plan(index as int) == Some(s@),
            None => plan(index as int) is None,
        },
{
    if index < 15 {
        Some(early_step(index))
    } else if index < 22 {
        Some(middle_step(index))
    } else if index < STEPS {
        Some(late_step(index))
    } else {
        None
    }
}

/// Whether a string is short enough to be sent without a second thought.
pub open spec fn short(s: Seq<char>) -> bool {
    s.len() <= 64
}

/// A short string is well-formed as a value, and so are the structs of the
/// test that hold short strings.
pub proof fn lemma_short_text(s: Seq<char>)
    requires
        short(s),
    ensures
        encode_utf8(s).len() <= 256,
        text(s).wf(),
        forall|b: i8, i: i32, l: i64| (#[trigger] xtruct(s, b, i, l)).wf(),
        forall|code: i32| (#[trigger] xception(code, s)).wf(),
{
    crate::text::lemma_text_len(s);
    assert forall|b: i8, i: i32, l: i64| (#[trigger] xtruct(s, b, i, l)).wf() by {
        lemma_wf_unfold(xtruct(s, b, i, l));
    }
    assert forall|code: i32| (#[trigger] xception(code, s)).wf() by {
        lemma_wf_unfold(xception(code, s));
    }
}

/// A struct of well-formed values is well-formed.
proof fn lemma_struct_wf(fields: Seq<(i16, Val)>)
    requires
        forall|i: int| 0 <= i < fields.len() ==> (#[trigger] fields[i]).1.wf(),
    ensures
        Val::Struct(fields).wf(),
        fields_wf(fields),
{
    lemma_wf_unfold(Val::Struct(fields));
}

/// A few values of one type make a well-formed list and a well-formed set.
proof fn lemma_items_wf(t: TType, items: Seq<Val>)
    requires
        items.len() <= 64,
        forall|i: int| 0 <= i < items.len() ==> (#[trigger] items[i]).ttype() == t && items[i].wf(),
    ensures
        Val::ListOf(t, items).wf(),
        Val::SetOf(t, items).wf(),
{
    lemma_wf_unfold(Val::ListOf(t, items));
    lemma_wf_unfold(Val::SetOf(t, items));
}

/// A few entries of one key type and one value type make a well-formed
/// map.
proof fn lemma_entries_wf(k: TType, w: TType, entries: Seq<(Val, Val)>)
    requires
        entries.len() <= 64,
        forall|i: int|
            0 <= i < entries.len() ==> {
                &&& (#[trigger] entries[i]).0.ttype() == k
                &&& entries[i].0.wf()
                &&& entries[i].1.ttype() == w
                &&& entries[i].1.wf()
            },
    ensures
        Val::MapOf(k, w, entries).wf(),
{
    lemma_wf_unfold(Val::MapOf(k, w, entries));
}

/// The values of the test that are built from strings are well-formed.
proof fn lemma_test_values_wf()
    ensures
        sent_insanity().wf(),
        insanity_answer().wf(),
        map_map_answer().wf(),
        fields_wf(multi_args()),
        Val::MapOf(TType::Binary, TType::Binary, string_map()).wf(),
{
    reveal_strlit("foo");
    reveal_strlit("bar");
    reveal_strlit("baz");
    lemma_short_text("foo"@);
    lemma_short_text("bar"@);
    lemma_short_text("baz"@);
    lemma_entries_wf(
        TType::I32,
        TType::I64,
        seq![(Val::I32(1), Val::I64(4289)), (Val::I32(8), Val::I64(19))],
    );
    lemma_items_wf(
        TType::Struct,
        seq![
            xtruct("foo"@, 8, 29, 92384),
            xtruct("bar"@, 28, 2, -1281i64),
            xtruct("baz"@, 0, 3_948_539, -12_938_492i64),
        ],
    );
    let sent = sent_insanity();
    lemma_struct_wf(sent->Struct_0);
    lemma_entries_wf(TType::I32, TType::I64, Seq::empty());
    lemma_items_wf(TType::Struct, Seq::empty());
    let empty = insanity(Seq::empty(), Seq::empty());
    lemma_struct_wf(empty->Struct_0);
    lemma_entries_wf(TType::I32, TType::Struct, seq![(Val::I32(2), sent), (Val::I32(3), sent)]);
    lemma_entries_wf(TType::I32, TType::Struct, seq![(Val::I32(6), empty)]);
    lemma_entries_wf(TType::I64, TType::MapOf, insanity_answer()->MapOf_2);

    let low = i32_entries(seq![(-4i32, -4i32), (-3i32, -3i32), (-2i32, -2i32), (-1i32, -1i32)]);
    let high = i32_entries(seq![(1i32, 1i32), (2i32, 2i32), (3i32, 3i32), (4i32, 4i32)]);
    lemma_entries_wf(TType::I32, TType::I32, low);
    lemma_entries_wf(TType::I32, TType::I32, high);
    lemma_entries_wf(TType::I32, TType::MapOf, map_map_answer()->MapOf_2);

    reveal_strlit("buzz");
    reveal_strlit("fizz");
    lemma_short_text("buzz"@);
    lemma_short_text("fizz"@);
    lemma_entries_wf(
        TType::I16,
        TType::Binary,
        seq![(Val::I16(-148i16), text("buzz"@)), (Val::I16(1298), text("fizz"@))],
    );
    lemma_struct_wf(multi_args());

    reveal_strlit("2");
    reveal_strlit("4");
    reveal_strlit("8");
    reveal_strlit("4_string");
    reveal_strlit("6_string");
    reveal_strlit("7_string");
    lemma_short_text("2"@);
    lemma_short_text("4"@);
    lemma_short_text("8"@);
    lemma_short_text("4_string"@);
    lemma_short_text("6_string"@);
    lemma_short_text("7_string"@);
    lemma_entries_wf(TType::Binary, TType::Binary, string_map());
}

/// One well-formed argument makes well-formed arguments.
proof fn lemma_one_arg_wf(v: Val)
    requires
        v.wf(),
    ensures
        fields_wf(seq![(1i16, v)]),
{
}

/// A short string makes a well-formed argument.
proof fn lemma_text_arg_wf(s: Seq<char>)
    requires
        short(s),
    ensures
        fields_wf(seq![(1i16, text(s))]),
{
    lemma_short_text(s);
}

proof fn lemma_plan_early_well_formed(index: int)
    requires
        0 <= index < 15,
    ensures
        plan(index) matches Some(s) && fields_wf(s.args),
{
    if index == 0 {
    } else if index == 1 {
        reveal_strlit("thing");
        lemma_text_arg_wf("thing"@);
    } else if index == 11 {
        lemma_wf_unfold(Val::Binary(binary_thing()));
    } else if index == 12 {
        reveal_strlit("foo");
        lemma_short_text("foo"@);
    } else if index == 13 {
        reveal_strlit("foo");
        lemma_short_text("foo"@);
        let inner = xtruct("foo"@, 1, 324_382_098, 12_938_492_818);
        lemma_struct_wf(xtruct2(32, inner, 293_481_098)->Struct_0);
    } else if index == 14 {
        reveal_strlit("test_string");
        lemma_text_arg_wf("test_string"@);
    } else {
    }
}

proof fn lemma_plan_late_well_formed(index: int)
    requires
        15 <= index < STEPS,
    ensures
        plan(index) matches Some(s) && fields_wf(s.args),
{
    if index == 15 {
        lemma_items_wf(TType::I32, i32_values(seq![29384i32, 238i32, 32498i32]));
    } else if index == 16 {
        lemma_items_wf(TType::I32, i32_values(seq![23i32, 3234i32, 293_481i32]));
    } else if index == 17 {
        lemma_entries_wf(
            TType::I32,
            TType::I32,
            i32_entries(seq![(2i32, 4i32), (4i32, 6i32), (8i32, 7i32)]),
        );
    } else if index == 18 || index == 20 || index == 21 {
        lemma_test_values_wf();
    } else if index == 22 {
        reveal_strlit("Xception");
        lemma_text_arg_wf("Xception"@);
    } else if index == 23 {
        reveal_strlit("TException");
        lemma_text_arg_wf("TException"@);
    } else if index == 24 {
        reveal_strlit("foo");
        lemma_text_arg_wf("foo"@);
    } else if index == 25 {
        reveal_strlit("Xception");
        reveal_strlit("ignored");
        lemma_short_text("Xception"@);
        lemma_short_text("ignored"@);
    } else if index == 26 {
        reveal_strlit("Xception2");
        reveal_strlit("ignored");
        lemma_short_text("Xception2"@);
        lemma_short_text("ignored"@);
    } else if index == 27 {
        reveal_strlit("haha");
        reveal_strlit("RETURNED");
        lemma_short_text("haha"@);
        lemma_short_text("RETURNED"@);
    } else {
    }
}

/// Every call of the test sends well-formed arguments.
pub proof fn lemma_plan_well_formed(index: int)
    requires
        0 <= index < STEPS,
    ensures
        plan(index) matches Some(s) && fields_wf(s.args),
{
    if index < 15 {
        lemma_plan_early_well_formed(index);
    } else {
        lemma_plan_late_well_formed(index);
    }
}

/// The method names of the first half of the test are short.
proof fn lemma_plan_early_names(index: int)
    requires
        0 <= index < 15,
    ensures
        plan(index) matches Some(s) && s.method.len() <= 20,
{
    if index == 0 {
        reveal_strlit("testVoid");
    } else if index == 1 {
        reveal_strlit("testString");
    } else if index == 2 {
        reveal_strlit("testUuid");
    } else if index == 3 {
        reveal_strlit("testBool");
    } else if index == 4 {
        reveal_strlit("testBool");
    } else if index == 5 {
        reveal_strlit("testByte");
    } else if index == 6 {
        reveal_strlit("testI32");
    } else if index == 7 {
        reveal_strlit("testI64");
    } else if index == 8 {
        reveal_strlit("testDouble");
    } else if index == 9 {
        reveal_strlit("testTypedef");
    } else if index == 10 {
        reveal_strlit("testEnum");
    } else if index == 11 {
        reveal_strlit("testBinary");
    } else if index == 12 {
        reveal_strlit("testStruct");
    } else if index == 13 {
        reveal_strlit("testNest");
    } else {
        reveal_strlit("secondtestString");
    }
}

/// The method names of the second half of the test are short.
proof fn lemma_plan_late_names(index: int)
    requires
        15 <= index < STEPS,
    ensures
        plan(index) matches Some(s) && s.method.len() <= 20,
{
    if index == 15 {
        reveal_strlit("testList");
    } else if index == 16 {
        reveal_strlit("testSet");
    } else if index == 17 {
        reveal_strlit("testMap");
    } else if index == 18 {
        reveal_strlit("testStringMap");
    } else if index == 19 {
        reveal_strlit("testMapMap");
    } else if index == 20 {
        reveal_strlit("testMulti");
    } else if index == 21 {
        reveal_strlit("testInsanity");
    } else if index == 22 {
        reveal_strlit("testException");
    } else if index == 23 {
        reveal_strlit("testException");
    } else if index == 24 {
        reveal_strlit("testException");
    } else if index == 25 {
        reveal_strlit("testMultiException");
    } else if index == 26 {
        reveal_strlit("testMultiException");
    } else if index == 27 {
        reveal_strlit("testMultiException");
    } else if index == 28 {
        reveal_strlit("testOneway");
    } else {
        reveal_strlit("testVoid");
    }
}

/// Every call of the test can be sent, alone on a connection or under
/// either service name on a shared one: its arguments are well-formed and
/// its name on the wire fits a length.
pub proof fn lemma_plan_sendable(client: Client, index: int)
    requires
        0 <= index < STEPS,
        client.service() is None || client.service() == Some(first_service()) || client.service()
            == Some(second_service()),
    ensures
        plan(index) matches Some(s) && client.sendable(s.method, s.oneway, s.args),
{
    lemma_plan_well_formed(index);
    if index < 15 {
        lemma_plan_early_names(index);
    } else {
        lemma_plan_late_names(index);
    }
    reveal_strlit("ThriftTest");
    reveal_strlit("SecondService");
    let s = plan(index).unwrap();
    let kind = if s.oneway {
        MessageKind::Oneway
    } else {
        MessageKind::Call
    };
    let name = wire_name(client.service(), kind, s.method);
    assert(name.len() <= 40);
    crate::text::lemma_text_len(name);
}

/// Whether a call is made on a connection: a call to the second service is
/// made on a shared connection only.
pub open spec fn runs(step: StepModel, multiplexed: bool) -> bool {
    multiplexed || !step.second
}

/// The index of the first call from `from` on that is made, if there is
/// one.
pub open spec fn next_index(from: int, multiplexed: bool) -> Option<int>
    decreases STEPS - from,
{
    if from < 0 || from >= STEPS {
        None
    } else if runs(plan(from).unwrap(), multiplexed) {
        Some(from)
    } else {
        next_index(from + 1, multiplexed)
    }
}

/// The first call from `from` on that is made on the connection, with its
/// index; none when the test is over.
pub fn next_step(from: usize, multiplexed: bool) -> (r: Option<(usize, Step)>)
    ensures
        match r {
            Some((index, s)) => next_index(from as int, multiplexed) == Some(index as int)
                && plan(index as int) == Some(s@) && from <= index < STEPS,
            None => next_index(from as int, multiplexed) is None,
        },
{
    let mut index: usize = from;
    while index < STEPS
        invariant
            from <= index,
            next_index(from as int, multiplexed) == next_index(index as int, multiplexed),
        decreases STEPS - index,
    {
        match step(index) {
            Some(s) => {
                if multiplexed || !s.second {
                    return Some((index, s));
                }
            },
            None => {},
        }
        index += 1;
    }
    None
}

} // verus!
