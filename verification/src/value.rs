//! The values that travel on the wire, and the mathematical model that the
//! codecs are specified over.
//!
//! A [`Value`] is what a program holds; its view, a [`Val`], is the same tree
//! with sequences in place of vectors. Strings and binary blobs share one
//! wire type, so both are a `Binary` here; an enum is its 32-bit number; a
//! double is its 64 IEEE-754 bits.

use vstd::prelude::*;

verus! {

/// The type tags of the wire protocols.
#[derive(Clone, Copy, Debug, PartialEq, Eq, Structural)]
pub enum TType {
    /// Ends a struct. No value has this type; an empty container may be
    /// declared with it where the element type is unknown.
    Stop,
    Bool,
    I8,
    Double,
    I16,
    I32,
    I64,
    /// A string or a binary blob.
    Binary,
    Struct,
    MapOf,
    SetOf,
    ListOf,
    Uuid,
}

/// A value as a program holds it.
#[derive(Debug, PartialEq, Eq)]
pub enum Value {
    Bool(bool),
    I8(i8),
    I16(i16),
    I32(i32),
    I64(i64),
    /// The bits of a double.
    Double(u64),
    /// The bytes of a string or of a binary blob.
    Binary(Vec<u8>),
    /// The sixteen bytes of a UUID, read as one big-endian number.
    Uuid(u128),
    /// The element type and the elements.
    ListOf(TType, Vec<Value>),
    /// The element type and the elements, in the order they are sent.
    SetOf(TType, Vec<Value>),
    /// The key type, the value type and the entries, in the order they are
    /// sent.
    MapOf(TType, TType, Vec<(Value, Value)>),
    /// The fields, each with its id, in the order they are sent.
    Struct(Vec<(i16, Value)>),
}

/// The mathematical model of a [`Value`].
pub enum Val {
    Bool(bool),
    I8(i8),
    I16(i16),
    I32(i32),
    I64(i64),
    Double(u64),
    Binary(Seq<u8>),
    Uuid(u128),
    ListOf(TType, Seq<Val>),
    SetOf(TType, Seq<Val>),
    MapOf(TType, TType, Seq<(Val, Val)>),
    Struct(Seq<(i16, Val)>),
}

/// The models of the elements of a vector of values.
pub open spec fn view_items(items: &Vec<Value>) -> Seq<Val>
    decreases items,
{
    Seq::new(
        items.len() as nat,
        |i: int|
            if 0 <= i < items.len() {
                items[i]@
            } else {
                Val::Bool(false)
            },
    )
}

/// The models of the entries of a vector of key-value pairs.
pub open spec fn view_entries(entries: &Vec<(Value, Value)>) -> Seq<(Val, Val)>
    decreases entries,
{
    Seq::new(
        entries.len() as nat,
        |i: int|
            if 0 <= i < entries.len() {
                (entries[i].0@, entries[i].1@)
            } else {
                (Val::Bool(false), Val::Bool(false))
            },
    )
}

/// The models of the fields of a vector of fields.
pub open spec fn view_fields(fields: &Vec<(i16, Value)>) -> Seq<(i16, Val)>
    decreases fields,
{
    Seq::new(
        fields.len() as nat,
        |i: int|
            if 0 <= i < fields.len() {
                (fields[i].0, fields[i].1@)
            } else {
                (0i16, Val::Bool(false))
            },
    )
}

impl View for Value {
    type V = Val;

    open spec fn view(&self) -> Val
        decreases self,
    {
        match self {
            Value::Bool(b) => Val::Bool(*b),
            Value::I8(x) => Val::I8(*x),
            Value::I16(x) => Val::I16(*x),
            Value::I32(x) => Val::I32(*x),
            Value::I64(x) => Val::I64(*x),
            Value::Double(bits) => Val::Double(*bits),
            Value::Binary(bytes) => Val::Binary(bytes@),
            Value::Uuid(u) => Val::Uuid(*u),
            Value::ListOf(t, items) => Val::ListOf(*t, view_items(items)),
            Value::SetOf(t, items) => Val::SetOf(*t, view_items(items)),
            Value::MapOf(k, v, entries) => Val::MapOf(*k, *v, view_entries(entries)),
            Value::Struct(fields) => Val::Struct(view_fields(fields)),
        }
    }
}

/// The largest length or element count that the wire can state.
pub const MAX_SIZE: usize = 0x7FFF_FFFF;

impl Val {
    /// The type tag of the value.
    pub open spec fn ttype(self) -> TType {
        match self {
            Val::Bool(_) => TType::Bool,
            Val::I8(_) => TType::I8,
            Val::I16(_) => TType::I16,
            Val::I32(_) => TType::I32,
            Val::I64(_) => TType::I64,
            Val::Double(_) => TType::Double,
            Val::Binary(_) => TType::Binary,
            Val::Uuid(_) => TType::Uuid,
            Val::ListOf(_, _) => TType::ListOf,
            Val::SetOf(_, _) => TType::SetOf,
            Val::MapOf(_, _, _) => TType::MapOf,
            Val::Struct(_) => TType::Struct,
        }
    }

    /// Whether the value can be sent: every length fits 31 bits, and each
    /// element of a container has the type that the container declares.
    pub open spec fn wf(self) -> bool
        decreases self,
    {
        match self {
            Val::Bool(_) => true,
            Val::I8(_) => true,
            Val::I16(_) => true,
            Val::I32(_) => true,
            Val::I64(_) => true,
            Val::Double(_) => true,
            Val::Uuid(_) => true,
            Val::Binary(bytes) => bytes.len() <= MAX_SIZE,
            Val::ListOf(t, items) => items_wf(t, items),
            Val::SetOf(t, items) => items_wf(t, items),
            Val::MapOf(k, v, entries) => entries_wf(k, v, entries),
            Val::Struct(fields) => fields_wf(fields),
        }
    }
}

/// Whether `fields` can be sent as the fields of a struct.
pub open spec fn fields_wf(fields: Seq<(i16, Val)>) -> bool
    decreases fields,
{
    forall|i: int| 0 <= i < fields.len() ==> (#[trigger] fields[i]).1.wf()
}

/// Whether `items` can be sent as the elements of a container of `t`.
pub open spec fn items_wf(t: TType, items: Seq<Val>) -> bool
    decreases items,
{
    &&& items.len() <= MAX_SIZE
    &&& forall|i: int|
        0 <= i < items.len() ==> (#[trigger] items[i]).ttype() == t && items[i].wf()
}

/// Whether `entries` can be sent as the entries of a map from `k` to `v`.
pub open spec fn entries_wf(k: TType, v: TType, entries: Seq<(Val, Val)>) -> bool
    decreases entries,
{
    &&& entries.len() <= MAX_SIZE
    &&& forall|i: int|
        0 <= i < entries.len() ==> {
            &&& (#[trigger] entries[i]).0.ttype() == k
            &&& entries[i].0.wf()
            &&& entries[i].1.ttype() == v
            &&& entries[i].1.wf()
        }
}

impl Value {
    /// The type tag of the value.
    pub fn ttype(&self) -> (t: TType)
        ensures
            t == self@.ttype(),
    {
        match self {
            Value::Bool(_) => TType::Bool,
            Value::I8(_) => TType::I8,
            Value::I16(_) => TType::I16,
            Value::I32(_) => TType::I32,
            Value::I64(_) => TType::I64,
            Value::Double(_) => TType::Double,
            Value::Binary(_) => TType::Binary,
            Value::Uuid(_) => TType::Uuid,
            Value::ListOf(_, _) => TType::ListOf,
            Value::SetOf(_, _) => TType::SetOf,
            Value::MapOf(_, _, _) => TType::MapOf,
            Value::Struct(_) => TType::Struct,
        }
    }

    /// Whether the value can be sent.
    #[verifier::loop_isolation(false)]
    pub fn is_well_formed(&self) -> (r: bool)
        ensures
            r == self@.wf(),
        decreases self,
    {
        match self {
            Value::Binary(bytes) => bytes.len() <= MAX_SIZE,
            Value::ListOf(t, items) => items_well_formed(*t, items),
            Value::SetOf(t, items) => items_well_formed(*t, items),
            Value::MapOf(k, v, entries) => {
                let ghost model = view_entries(entries);
                if entries.len() > MAX_SIZE {
                    assert(model.len() == entries.len());
                    return false;
                }
                let mut i: usize = 0;
                while i < entries.len()
                    invariant
                        i <= entries.len(),
                        forall|j: int|
                            0 <= j < i ==> {
                                &&& (#[trigger] model[j]).0.ttype() == *k
                                &&& model[j].0.wf()
                                &&& model[j].1.ttype() == *v
                                &&& model[j].1.wf()
                            },
                    decreases entries.len() - i,
                {
                    let entry = &entries[i];
                    assert(model[i as int] == (entry.0@, entry.1@));
                    if !(entry.0.ttype() == *k && entry.1.ttype() == *v
                        && entry.0.is_well_formed() && entry.1.is_well_formed()) {
                        assert(!(model[i as int].0.ttype() == *k && model[i as int].0.wf()
                            && model[i as int].1.ttype() == *v && model[i as int].1.wf()));
                        return false;
                    }
                    i += 1;
                }
                true
            },
            Value::Struct(fields) => fields_well_formed(fields),
            _ => true,
        }
    }

    /// Whether two values are the same tree.
    #[verifier::loop_isolation(false)]
    pub fn same(&self, other: &Value) -> (r: bool)
        ensures
            r == (self@ == other@),
        decreases self,
    {
        match (self, other) {
            (Value::Bool(a), Value::Bool(b)) => *a == *b,
            (Value::I8(a), Value::I8(b)) => *a == *b,
            (Value::I16(a), Value::I16(b)) => *a == *b,
            (Value::I32(a), Value::I32(b)) => *a == *b,
            (Value::I64(a), Value::I64(b)) => *a == *b,
            (Value::Double(a), Value::Double(b)) => *a == *b,
            (Value::Uuid(a), Value::Uuid(b)) => *a == *b,
            (Value::Binary(a), Value::Binary(b)) => same_bytes(a.as_slice(), b.as_slice()),
            (Value::ListOf(s, a), Value::ListOf(t, b)) => *s == *t && same_items(a, b),
            (Value::SetOf(s, a), Value::SetOf(t, b)) => *s == *t && same_items(a, b),
            (Value::MapOf(ka, va, a), Value::MapOf(kb, vb, b)) => {
                if !(*ka == *kb && *va == *vb && a.len() == b.len()) {
                    assert(view_entries(a).len() == a.len() && view_entries(b).len() == b.len());
                    return false;
                }
                let mut i: usize = 0;
                while i < a.len()
                    invariant
                        i <= a.len() == b.len(),
                        forall|j: int| 0 <= j < i ==> view_entries(a)[j] == view_entries(b)[j],
                    decreases a.len() - i,
                {
                    if !(a[i].0.same(&b[i].0) && a[i].1.same(&b[i].1)) {
                        assert(view_entries(a)[i as int] != view_entries(b)[i as int]);
                        return false;
                    }
                    i += 1;
                }
                assert(view_entries(a) =~= view_entries(b));
                true
            },
            (Value::Struct(a), Value::Struct(b)) => {
                if a.len() != b.len() {
                    assert(view_fields(a).len() == a.len() && view_fields(b).len() == b.len());
                    return false;
                }
                let mut i: usize = 0;
                while i < a.len()
                    invariant
                        i <= a.len() == b.len(),
                        forall|j: int| 0 <= j < i ==> view_fields(a)[j] == view_fields(b)[j],
                    decreases a.len() - i,
                {
                    if !(a[i].0 == b[i].0 && a[i].1.same(&b[i].1)) {
                        assert(view_fields(a)[i as int] != view_fields(b)[i as int]);
                        return false;
                    }
                    i += 1;
                }
                assert(view_fields(a) =~= view_fields(b));
                true
            },
            _ => false,
        }
    }
}

/// What well-formedness means for each container, one level down.
pub proof fn lemma_wf_unfold(v: Val)
    ensures
        v matches Val::ListOf(t, items) ==> (v.wf() <==> items_wf(t, items)),
        v matches Val::SetOf(t, items) ==> (v.wf() <==> items_wf(t, items)),
        v matches Val::MapOf(k, w, entries) ==> (v.wf() <==> entries_wf(k, w, entries)),
        v matches Val::Struct(fields) ==> (v.wf() <==> fields_wf(fields)),
{
}

/// Whether `items` can be sent as the elements of a container of `t`.
#[verifier::loop_isolation(false)]
pub fn items_well_formed(t: TType, items: &Vec<Value>) -> (r: bool)
    ensures
        r == items_wf(t, view_items(items)),
    decreases items,
{
    let ghost model = view_items(items);
    if items.len() > MAX_SIZE {
        assert(model.len() == items.len());
        return false;
    }
    let mut i: usize = 0;
    while i < items.len()
        invariant
            i <= items.len(),
            forall|j: int| 0 <= j < i ==> (#[trigger] model[j]).ttype() == t && model[j].wf(),
        decreases items.len() - i,
    {
        assert(model[i as int] == items[i as int]@);
        if !(items[i].ttype() == t && items[i].is_well_formed()) {
            assert(!(model[i as int].ttype() == t && model[i as int].wf()));
            return false;
        }
        i += 1;
    }
    true
}

/// Whether `fields` can be sent as the fields of a struct.
#[verifier::loop_isolation(false)]
pub fn fields_well_formed(fields: &Vec<(i16, Value)>) -> (r: bool)
    ensures
        r == fields_wf(view_fields(fields)),
    decreases fields,
{
    let ghost model = view_fields(fields);
    let mut i: usize = 0;
    while i < fields.len()
        invariant
            i <= fields.len(),
            forall|j: int| 0 <= j < i ==> (#[trigger] model[j]).1.wf(),
        decreases fields.len() - i,
    {
        assert(model[i as int] == (fields[i as int].0, fields[i as int].1@));
        if !fields[i].1.is_well_formed() {
            assert(!model[i as int].1.wf());
            return false;
        }
        i += 1;
    }
    true
}

/// Whether two vectors hold the same values in the same order.
#[verifier::loop_isolation(false)]
pub fn same_items(a: &Vec<Value>, b: &Vec<Value>) -> (r: bool)
    ensures
        r == (view_items(a) == view_items(b)),
    decreases a,
{
    if a.len() != b.len() {
        assert(view_items(a).len() == a.len() && view_items(b).len() == b.len());
        return false;
    }
    let mut i: usize = 0;
    while i < a.len()
        invariant
            i <= a.len() == b.len(),
            forall|j: int| 0 <= j < i ==> view_items(a)[j] == view_items(b)[j],
        decreases a.len() - i,
    {
        if !a[i].same(&b[i]) {
            assert(view_items(a)[i as int] != view_items(b)[i as int]);
            return false;
        }
        i += 1;
    }
    assert(view_items(a) =~= view_items(b));
    true
}

/// Whether two byte slices are equal.
pub fn same_bytes(a: &[u8], b: &[u8]) -> (r: bool)
    ensures
        r == (a@ == b@),
{
    if a.len() != b.len() {
        return false;
    }
    let mut i: usize = 0;
    while i < a.len()
        invariant
            i <= a.len() == b.len(),
            forall|j: int| 0 <= j < i ==> a@[j] == b@[j],
        decreases a.len() - i,
    {
        if a[i] != b[i] {
            return false;
        }
        i += 1;
    }
    assert(a@ =~= b@);
    true
}

impl Clone for Value {
    /// A copy of the value: the same tree.
    fn clone(&self) -> (r: Self)
        ensures
            r@ == self@,
        decreases self, 1nat,
    {
        match self {
            Value::Bool(b) => Value::Bool(*b),
            Value::I8(x) => Value::I8(*x),
            Value::I16(x) => Value::I16(*x),
            Value::I32(x) => Value::I32(*x),
            Value::I64(x) => Value::I64(*x),
            Value::Double(bits) => Value::Double(*bits),
            Value::Uuid(u) => Value::Uuid(*u),
            Value::Binary(bytes) => {
                assert(bytes@.subrange(0, bytes@.len() as int) =~= bytes@);
                Value::Binary(crate::bytes::copy_range(bytes.as_slice(), 0, bytes.len()))
            },
            Value::ListOf(t, items) => Value::ListOf(*t, clone_items(items)),
            Value::SetOf(t, items) => Value::SetOf(*t, clone_items(items)),
            Value::MapOf(k, v, entries) => Value::MapOf(*k, *v, clone_entries(entries)),
            Value::Struct(fields) => Value::Struct(clone_fields(fields)),
        }
    }
}

/// A copy of each value, in the same order.
#[verifier::loop_isolation(false)]
pub fn clone_items(items: &Vec<Value>) -> (r: Vec<Value>)
    ensures
        view_items(&r) == view_items(items),
    decreases items, 0nat,
{
    let mut r: Vec<Value> = Vec::new();
    let mut i: usize = 0;
    while i < items.len()
        invariant
            i <= items.len(),
            r.len() == i,
            forall|j: int| 0 <= j < i ==> (#[trigger] r[j])@ == items[j]@,
        decreases items.len() - i,
    {
        r.push(items[i].clone());
        i += 1;
    }
    assert(view_items(&r) =~= view_items(items));
    r
}

/// A copy of each entry, in the same order.
#[verifier::loop_isolation(false)]
pub fn clone_entries(entries: &Vec<(Value, Value)>) -> (r: Vec<(Value, Value)>)
    ensures
        view_entries(&r) == view_entries(entries),
    decreases entries, 0nat,
{
    let mut r: Vec<(Value, Value)> = Vec::new();
    let mut i: usize = 0;
    while i < entries.len()
        invariant
            i <= entries.len(),
            r.len() == i,
            forall|j: int|
                0 <= j < i ==> (#[trigger] r[j]).0@ == entries[j].0@ && r[j].1@ == entries[j].1@,
        decreases entries.len() - i,
    {
        r.push((entries[i].0.clone(), entries[i].1.clone()));
        i += 1;
    }
    assert(view_entries(&r) =~= view_entries(entries));
    r
}

/// A copy of each field, in the same order.
#[verifier::loop_isolation(false)]
pub fn clone_fields(fields: &Vec<(i16, Value)>) -> (r: Vec<(i16, Value)>)
    ensures
        view_fields(&r) == view_fields(fields),
    decreases fields, 0nat,
{
    let mut r: Vec<(i16, Value)> = Vec::new();
    let mut i: usize = 0;
    while i < fields.len()
        invariant
            i <= fields.len(),
            r.len() == i,
            forall|j: int|
                0 <= j < i ==> (#[trigger] r[j]).0 == fields[j].0 && r[j].1@ == fields[j].1@,
        decreases fields.len() - i,
    {
        r.push((fields[i].0, fields[i].1.clone()));
        i += 1;
    }
    assert(view_fields(&r) =~= view_fields(fields));
    r
}

} // verus!
