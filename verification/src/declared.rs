//! What a method declares of its values beyond what the wire tells.
//!
//! A string and a binary blob look the same on the wire, and only a string
//! has to be UTF-8. So whoever reads a value has to know where its strings
//! are: a [`Declared`] says so, as far down as the value goes. A string that
//! is not UTF-8 is a decoding error like any other.

use crate::text::text_of_range;
use crate::value::{view_entries, view_fields, view_items, Val, Value};
use vstd::prelude::*;
use vstd::utf8::valid_utf8;

verus! {

/// Where the strings of a value are.
#[derive(Debug, PartialEq, Eq)]
pub enum Declared {
    /// A value that holds no string: a number, a boolean, a binary blob, or
    /// anything of which nothing is declared.
    Opaque,
    /// A string.
    Text,
    /// A list or a set, with what is declared of each element.
    Elements(Box<Declared>),
    /// A map, with what is declared of each key and of each value.
    Entries(Box<Declared>, Box<Declared>),
    /// A struct, with what is declared of its fields, by their ids. Of a
    /// field that is not named here nothing is declared.
    Fields(Vec<(i16, Declared)>),
}

/// The mathematical model of a [`Declared`].
pub enum Decl {
    Opaque,
    Text,
    Elements(Box<Decl>),
    Entries(Box<Decl>, Box<Decl>),
    Fields(Seq<(i16, Decl)>),
}

/// The models of what is declared of the fields of a struct.
pub open spec fn view_declared_fields(fields: &Vec<(i16, Declared)>) -> Seq<(i16, Decl)>
    decreases fields,
{
    Seq::new(
        fields.len() as nat,
        |i: int|
            if 0 <= i < fields.len() {
                (fields[i].0, fields[i].1@)
            } else {
                (0i16, Decl::Opaque)
            },
    )
}

/// The models of a vector of declarations.
pub open spec fn view_declared(all: &Vec<Declared>) -> Seq<Decl> {
    Seq::new(
        all.len() as nat,
        |i: int|
            if 0 <= i < all.len() {
                all[i]@
            } else {
                Decl::Opaque
            },
    )
}

impl View for Declared {
    type V = Decl;

    open spec fn view(&self) -> Decl
        decreases self,
    {
        match self {
            Declared::Opaque => Decl::Opaque,
            Declared::Text => Decl::Text,
            Declared::Elements(e) => Decl::Elements(Box::new((**e)@)),
            Declared::Entries(k, w) => Decl::Entries(Box::new((**k)@), Box::new((**w)@)),
            Declared::Fields(fields) => Decl::Fields(view_declared_fields(fields)),
        }
    }
}

/// What is declared of the field with this id: what the first entry for it
/// from `from` on says, if there is one.
pub open spec fn declared_field(fields: Seq<(i16, Decl)>, id: i16, from: int) -> Option<Decl>
    decreases fields.len() - from,
{
    if from < 0 || from >= fields.len() {
        None
    } else if fields[from].0 == id {
        Some(fields[from].1)
    } else {
        declared_field(fields, id, from + 1)
    }
}

/// Whether every string in `v` is UTF-8, where `d` says where the strings
/// of `v` are. Where `v` is not of the shape that `d` declares, nothing is
/// asked of it.
pub open spec fn texts_sound(v: Val, d: Decl) -> bool
    decreases v,
{
    match d {
        Decl::Opaque => true,
        Decl::Text => match v {
            Val::Binary(b) => valid_utf8(b),
            _ => true,
        },
        Decl::Elements(e) => match v {
            Val::ListOf(_, items) => items_sound(items, *e, 0),
            Val::SetOf(_, items) => items_sound(items, *e, 0),
            _ => true,
        },
        Decl::Entries(k, w) => match v {
            Val::MapOf(_, _, entries) => entries_sound(entries, *k, *w, 0),
            _ => true,
        },
        Decl::Fields(declared) => match v {
            Val::Struct(fields) => fields_sound(fields, declared, 0),
            _ => true,
        },
    }
}

/// Whether every string in `items[from..]` is UTF-8.
pub open spec fn items_sound(items: Seq<Val>, d: Decl, from: int) -> bool
    decreases items, items.len() - from,
{
    if 0 <= from < items.len() {
        texts_sound(items[from], d) && items_sound(items, d, from + 1)
    } else {
        true
    }
}

/// Whether every string in `entries[from..]` is UTF-8.
pub open spec fn entries_sound(entries: Seq<(Val, Val)>, k: Decl, w: Decl, from: int) -> bool
    decreases entries, entries.len() - from,
{
    if 0 <= from < entries.len() {
        texts_sound(entries[from].0, k) && texts_sound(entries[from].1, w) && entries_sound(
            entries,
            k,
            w,
            from + 1,
        )
    } else {
        true
    }
}

/// Whether every string in `fields[from..]` is UTF-8.
pub open spec fn fields_sound(fields: Seq<(i16, Val)>, declared: Seq<(i16, Decl)>, from: int)
    -> bool
    decreases fields, fields.len() - from,
{
    if 0 <= from < fields.len() {
        (match declared_field(declared, fields[from].0, 0) {
            Some(d) => texts_sound(fields[from].1, d),
            None => true,
        }) && fields_sound(fields, declared, from + 1)
    } else {
        true
    }
}

/// The index of the first entry for the field with this id, if there is
/// one.
pub fn find_declared(declared: &Vec<(i16, Declared)>, id: i16) -> (r: Option<usize>)
    ensures
        match r {
            Some(i) => i < declared.len() && declared_field(
                view_declared_fields(declared),
                id,
                0,
            ) == Some(declared[i as int].1@),
            None => declared_field(view_declared_fields(declared), id, 0) is None,
        },
{
    let ghost model = view_declared_fields(declared);
    let mut i: usize = 0;
    while i < declared.len()
        invariant
            i <= declared.len(),
            model == view_declared_fields(declared),
            declared_field(model, id, 0) == declared_field(model, id, i as int),
        decreases declared.len() - i,
    {
        assert(model[i as int] == (declared[i as int].0, declared[i as int].1@));
        if declared[i].0 == id {
            return Some(i);
        }
        i += 1;
    }
    None
}

/// Whether every string in `v` is UTF-8, where `d` says where the strings
/// of `v` are.
pub fn texts_are_sound(v: &Value, d: &Declared) -> (r: bool)
    ensures
        r == texts_sound(v@, d@),
    decreases v,
{
    match d {
        Declared::Opaque => true,
        Declared::Text => match v {
            Value::Binary(b) => {
                assert(b@.subrange(0, b@.len() as int) =~= b@);
                text_of_range(b.as_slice(), 0, b.len()).is_ok()
            },
            _ => true,
        },
        Declared::Elements(e) => match v {
            Value::ListOf(_, items) => items_are_sound(items, e),
            Value::SetOf(_, items) => items_are_sound(items, e),
            _ => true,
        },
        Declared::Entries(k, w) => match v {
            Value::MapOf(_, _, entries) => entries_are_sound(entries, k, w),
            _ => true,
        },
        Declared::Fields(declared) => match v {
            Value::Struct(fields) => fields_are_sound(fields, declared),
            _ => true,
        },
    }
}

/// Whether every string in `items` is UTF-8.
#[verifier::loop_isolation(false)]
fn items_are_sound(items: &Vec<Value>, d: &Declared) -> (r: bool)
    ensures
        r == items_sound(view_items(items), d@, 0),
    decreases items,
{
    let ghost model = view_items(items);
    let mut i: usize = 0;
    while i < items.len()
        invariant
            i <= items.len(),
            items_sound(model, d@, 0) == items_sound(model, d@, i as int),
        decreases items.len() - i,
    {
        assert(model[i as int] == items[i as int]@);
        if !texts_are_sound(&items[i], d) {
            return false;
        }
        i += 1;
    }
    true
}

/// Whether every string in `entries` is UTF-8.
#[verifier::loop_isolation(false)]
fn entries_are_sound(entries: &Vec<(Value, Value)>, k: &Declared, w: &Declared) -> (r: bool)
    ensures
        r == entries_sound(view_entries(entries), k@, w@, 0),
    decreases entries,
{
    let ghost model = view_entries(entries);
    let mut i: usize = 0;
    while i < entries.len()
        invariant
            i <= entries.len(),
            entries_sound(model, k@, w@, 0) == entries_sound(model, k@, w@, i as int),
        decreases entries.len() - i,
    {
        assert(model[i as int] == (entries[i as int].0@, entries[i as int].1@));
        if !(texts_are_sound(&entries[i].0, k) && texts_are_sound(&entries[i].1, w)) {
            return false;
        }
        i += 1;
    }
    true
}

/// Whether every string in `fields` is UTF-8.
#[verifier::loop_isolation(false)]
fn fields_are_sound(fields: &Vec<(i16, Value)>, declared: &Vec<(i16, Declared)>) -> (r: bool)
    ensures
        r == fields_sound(view_fields(fields), view_declared_fields(declared), 0),
    decreases fields,
{
    let ghost model = view_fields(fields);
    let ghost decls = view_declared_fields(declared);
    let mut i: usize = 0;
    while i < fields.len()
        invariant
            i <= fields.len(),
            fields_sound(model, decls, 0) == fields_sound(model, decls, i as int),
        decreases fields.len() - i,
    {
        assert(model[i as int] == (fields[i as int].0, fields[i as int].1@));
        let sound = match find_declared(declared, fields[i].0) {
            Some(at) => texts_are_sound(&fields[i].1, &declared[at].1),
            None => true,
        };
        if !sound {
            return false;
        }
        i += 1;
    }
    true
}

} // verus!
