//! When two values mean the same.
//!
//! The wire says more than a value means: it orders the elements of a set
//! and the entries of a map, it may repeat them, and it declares the element
//! types of containers, even of empty ones. Two values are equivalent where
//! they differ in nothing else.

use crate::value::{view_entries, view_fields, view_items, Val, Value};
use vstd::prelude::*;

verus! {

/// Whether `a` and `b` mean the same: equal scalars; lists of the same
/// length with equivalent elements in the same places; sets, each element of
/// one with an equivalent in the other; maps, each entry of one with an
/// equivalent in the other; structs with the same field ids in the same
/// order and equivalent values.
pub open spec fn equivalent(a: Val, b: Val) -> bool
    decreases a, 0nat, 0nat,
{
    match a {
        Val::ListOf(_, x) => b matches Val::ListOf(_, y) && x.len() == y.len() && items_alike(
            x,
            y,
            0,
        ),
        Val::SetOf(_, x) => b matches Val::SetOf(_, y) && items_within(x, y, 0) && items_cover(
            x,
            y,
            0,
        ),
        Val::MapOf(_, _, x) => b matches Val::MapOf(_, _, y) && entries_within(x, y, 0)
            && entries_cover(x, y, 0),
        Val::Struct(x) => b matches Val::Struct(y) && x.len() == y.len() && fields_alike(x, y, 0),
        _ => a == b,
    }
}

/// Whether each of `x[from..]` is equivalent to the element of `y` in the
/// same place.
pub open spec fn items_alike(x: Seq<Val>, y: Seq<Val>, from: int) -> bool
    decreases x, x.len() - from, 0nat,
{
    if 0 <= from < x.len() {
        equivalent(x[from], y[from]) && items_alike(x, y, from + 1)
    } else {
        true
    }
}

/// Whether each of `x[from..]` has the id of the field of `y` in the same
/// place and an equivalent value.
pub open spec fn fields_alike(x: Seq<(i16, Val)>, y: Seq<(i16, Val)>, from: int) -> bool
    decreases x, x.len() - from, 0nat,
{
    if 0 <= from < x.len() {
        x[from].0 == y[from].0 && equivalent(x[from].1, y[from].1) && fields_alike(x, y, from + 1)
    } else {
        true
    }
}

/// Whether `v` is equivalent to one of the first `n` elements of `y`.
pub open spec fn item_found(v: Val, y: Seq<Val>, n: int) -> bool
    decreases v, 1nat, n,
{
    if 0 < n <= y.len() {
        equivalent(v, y[n - 1]) || item_found(v, y, n - 1)
    } else {
        false
    }
}

/// Whether each of `x[from..]` has an equivalent in `y`.
pub open spec fn items_within(x: Seq<Val>, y: Seq<Val>, from: int) -> bool
    decreases x, x.len() - from, 0nat,
{
    if 0 <= from < x.len() {
        item_found(x[from], y, y.len() as int) && items_within(x, y, from + 1)
    } else {
        true
    }
}

/// Whether one of the first `n` elements of `x` is equivalent to `w`.
pub open spec fn item_finds(x: Seq<Val>, w: Val, n: int) -> bool
    decreases x, 0nat, n,
{
    if 0 < n <= x.len() {
        equivalent(x[n - 1], w) || item_finds(x, w, n - 1)
    } else {
        false
    }
}

/// Whether each of `y[from..]` has an equivalent in `x`.
pub open spec fn items_cover(x: Seq<Val>, y: Seq<Val>, from: int) -> bool
    decreases x, 1nat, y.len() - from,
{
    if 0 <= from < y.len() {
        item_finds(x, y[from], x.len() as int) && items_cover(x, y, from + 1)
    } else {
        true
    }
}

/// Whether the entry `e` is equivalent to one of the first `n` entries of
/// `y`, key to key and value to value.
pub open spec fn entry_found(e: (Val, Val), y: Seq<(Val, Val)>, n: int) -> bool
    decreases e, 1nat, n,
{
    if 0 < n <= y.len() {
        (equivalent(e.0, y[n - 1].0) && equivalent(e.1, y[n - 1].1)) || entry_found(e, y, n - 1)
    } else {
        false
    }
}

/// Whether each of `x[from..]` has an equivalent in `y`.
pub open spec fn entries_within(x: Seq<(Val, Val)>, y: Seq<(Val, Val)>, from: int) -> bool
    decreases x, x.len() - from, 0nat,
{
    if 0 <= from < x.len() {
        entry_found(x[from], y, y.len() as int) && entries_within(x, y, from + 1)
    } else {
        true
    }
}

/// Whether one of the first `n` entries of `x` is equivalent to the entry
/// `f`.
pub open spec fn entry_finds(x: Seq<(Val, Val)>, f: (Val, Val), n: int) -> bool
    decreases x, 0nat, n,
{
    if 0 < n <= x.len() {
        (equivalent(x[n - 1].0, f.0) && equivalent(x[n - 1].1, f.1)) || entry_finds(x, f, n - 1)
    } else {
        false
    }
}

/// Whether each of `y[from..]` has an equivalent in `x`.
pub open spec fn entries_cover(x: Seq<(Val, Val)>, y: Seq<(Val, Val)>, from: int) -> bool
    decreases x, 1nat, y.len() - from,
{
    if 0 <= from < y.len() {
        entry_finds(x, y[from], x.len() as int) && entries_cover(x, y, from + 1)
    } else {
        true
    }
}

/// Every value means what it means: equivalence is reflexive.
pub proof fn lemma_equivalent_reflexive(v: Val)
    ensures
        equivalent(v, v),
    decreases v, 0nat, 0nat,
{
    match v {
        Val::ListOf(_, x) => {
            lemma_items_alike_reflexive(x, 0);
        },
        Val::SetOf(_, x) => {
            lemma_items_within_reflexive(x, 0);
        },
        Val::MapOf(_, _, x) => {
            lemma_entries_within_reflexive(x, 0);
        },
        Val::Struct(x) => {
            lemma_fields_alike_reflexive(x, 0);
        },
        _ => {},
    }
}

proof fn lemma_items_alike_reflexive(x: Seq<Val>, from: int)
    requires
        0 <= from,
    ensures
        items_alike(x, x, from),
    decreases x, x.len() - from, 0nat,
{
    if from < x.len() {
        lemma_equivalent_reflexive(x[from]);
        lemma_items_alike_reflexive(x, from + 1);
    }
}

proof fn lemma_fields_alike_reflexive(x: Seq<(i16, Val)>, from: int)
    requires
        0 <= from,
    ensures
        fields_alike(x, x, from),
    decreases x, x.len() - from, 0nat,
{
    if from < x.len() {
        lemma_equivalent_reflexive(x[from].1);
        lemma_fields_alike_reflexive(x, from + 1);
    }
}

/// An element that is equivalent to the element of `y` at `at` is found among
/// the first `n` elements of `y` for every `n` beyond `at`.
pub proof fn lemma_item_found(v: Val, y: Seq<Val>, at: int, n: int)
    requires
        0 <= at < n <= y.len(),
        equivalent(v, y[at]),
    ensures
        item_found(v, y, n),
    decreases n,
{
    if at < n - 1 {
        lemma_item_found(v, y, at, n - 1);
    }
}

/// An element of `x` at `at` that is equivalent to `w` is found among the
/// first `n` elements of `x` for every `n` beyond `at`.
pub proof fn lemma_item_finds(x: Seq<Val>, w: Val, at: int, n: int)
    requires
        0 <= at < n <= x.len(),
        equivalent(x[at], w),
    ensures
        item_finds(x, w, n),
    decreases n,
{
    if at < n - 1 {
        lemma_item_finds(x, w, at, n - 1);
    }
}

/// As [`lemma_item_found`], for entries.
pub proof fn lemma_entry_found(e: (Val, Val), y: Seq<(Val, Val)>, at: int, n: int)
    requires
        0 <= at < n <= y.len(),
        equivalent(e.0, y[at].0),
        equivalent(e.1, y[at].1),
    ensures
        entry_found(e, y, n),
    decreases n,
{
    if at < n - 1 {
        lemma_entry_found(e, y, at, n - 1);
    }
}

/// As [`lemma_item_finds`], for entries.
pub proof fn lemma_entry_finds(x: Seq<(Val, Val)>, f: (Val, Val), at: int, n: int)
    requires
        0 <= at < n <= x.len(),
        equivalent(x[at].0, f.0),
        equivalent(x[at].1, f.1),
    ensures
        entry_finds(x, f, n),
    decreases n,
{
    if at < n - 1 {
        lemma_entry_finds(x, f, at, n - 1);
    }
}

proof fn lemma_items_within_reflexive(x: Seq<Val>, from: int)
    requires
        0 <= from,
    ensures
        items_within(x, x, from),
        items_cover(x, x, from),
    decreases x, x.len() - from, 0nat,
{
    if from < x.len() {
        lemma_equivalent_reflexive(x[from]);
        lemma_item_found(x[from], x, from, x.len() as int);
        lemma_item_finds(x, x[from], from, x.len() as int);
        lemma_items_within_reflexive(x, from + 1);
    }
}

proof fn lemma_entries_within_reflexive(x: Seq<(Val, Val)>, from: int)
    requires
        0 <= from,
    ensures
        entries_within(x, x, from),
        entries_cover(x, x, from),
    decreases x, x.len() - from, 0nat,
{
    if from < x.len() {
        lemma_equivalent_reflexive(x[from].0);
        lemma_equivalent_reflexive(x[from].1);
        lemma_entry_found(x[from], x, from, x.len() as int);
        lemma_entry_finds(x, x[from], from, x.len() as int);
        lemma_entries_within_reflexive(x, from + 1);
    }
}

impl Value {
    /// Whether two values mean the same.
    pub fn matches(&self, other: &Value) -> (r: bool)
        ensures
            r == equivalent(self@, other@),
        decreases self, 0nat, 0nat,
    {
        match self {
            Value::ListOf(_, a) => match other {
                Value::ListOf(_, b) => {
                    assert(view_items(a).len() == a.len() && view_items(b).len() == b.len());
                    a.len() == b.len() && items_match(a, b)
                },
                _ => false,
            },
            Value::SetOf(_, a) => match other {
                Value::SetOf(_, b) => items_inside(a, b) && items_covered(a, b),
                _ => false,
            },
            Value::MapOf(_, _, a) => match other {
                Value::MapOf(_, _, b) => entries_inside(a, b) && entries_covered(a, b),
                _ => false,
            },
            Value::Struct(a) => match other {
                Value::Struct(b) => {
                    assert(view_fields(a).len() == a.len() && view_fields(b).len() == b.len());
                    a.len() == b.len() && fields_match(a, b)
                },
                _ => false,
            },
            _ => self.same(other),
        }
    }
}

/// Whether each element of `a` is equivalent to the element of `b` in the
/// same place.
#[verifier::loop_isolation(false)]
fn items_match(a: &Vec<Value>, b: &Vec<Value>) -> (r: bool)
    requires
        a.len() == b.len(),
    ensures
        r == items_alike(view_items(a), view_items(b), 0),
    decreases a, a.len(), 1nat,
{
    let ghost x = view_items(a);
    let ghost y = view_items(b);
    let mut i: usize = 0;
    while i < a.len()
        invariant
            i <= a.len(),
            items_alike(x, y, 0) == items_alike(x, y, i as int),
        decreases a.len() - i,
    {
        assert(x[i as int] == a[i as int]@ && y[i as int] == b[i as int]@);
        if !a[i].matches(&b[i]) {
            return false;
        }
        i += 1;
    }
    true
}

/// Whether each field of `a` has the id of the field of `b` in the same
/// place and an equivalent value.
#[verifier::loop_isolation(false)]
fn fields_match(a: &Vec<(i16, Value)>, b: &Vec<(i16, Value)>) -> (r: bool)
    requires
        a.len() == b.len(),
    ensures
        r == fields_alike(view_fields(a), view_fields(b), 0),
    decreases a, a.len(), 1nat,
{
    let ghost x = view_fields(a);
    let ghost y = view_fields(b);
    let mut i: usize = 0;
    while i < a.len()
        invariant
            i <= a.len(),
            fields_alike(x, y, 0) == fields_alike(x, y, i as int),
        decreases a.len() - i,
    {
        assert(x[i as int] == (a[i as int].0, a[i as int].1@));
        assert(y[i as int] == (b[i as int].0, b[i as int].1@));
        if !(a[i].0 == b[i].0 && a[i].1.matches(&b[i].1)) {
            return false;
        }
        i += 1;
    }
    true
}

/// Whether each element of `a` has an equivalent in `b`.
#[verifier::loop_isolation(false)]
fn items_inside(a: &Vec<Value>, b: &Vec<Value>) -> (r: bool)
    ensures
        r == items_within(view_items(a), view_items(b), 0),
    decreases a, a.len(), 1nat,
{
    let ghost x = view_items(a);
    let ghost y = view_items(b);
    assert(x.len() == a.len() && y.len() == b.len());
    let mut i: usize = 0;
    while i < a.len()
        invariant
            i <= a.len(),
            items_within(x, y, 0) == items_within(x, y, i as int),
        decreases a.len() - i,
    {
        let mut j: usize = b.len();
        let mut found = false;
        while j > 0 && !found
            invariant
                j <= b.len(),
                item_found(x[i as int], y, b.len() as int) == (found || item_found(
                    x[i as int],
                    y,
                    j as int,
                )),
            decreases j,
        {
            assert(x[i as int] == a[i as int]@ && y[j - 1] == b[j - 1]@);
            if a[i].matches(&b[j - 1]) {
                found = true;
            }
            j -= 1;
        }
        if !found {
            return false;
        }
        i += 1;
    }
    true
}

/// Whether each element of `b` has an equivalent in `a`.
#[verifier::loop_isolation(false)]
fn items_covered(a: &Vec<Value>, b: &Vec<Value>) -> (r: bool)
    ensures
        r == items_cover(view_items(a), view_items(b), 0),
    decreases a, a.len(), 1nat,
{
    let ghost x = view_items(a);
    let ghost y = view_items(b);
    assert(x.len() == a.len() && y.len() == b.len());
    let mut j: usize = 0;
    while j < b.len()
        invariant
            j <= b.len(),
            items_cover(x, y, 0) == items_cover(x, y, j as int),
        decreases b.len() - j,
    {
        let mut i: usize = a.len();
        let mut found = false;
        while i > 0 && !found
            invariant
                i <= a.len(),
                item_finds(x, y[j as int], a.len() as int) == (found || item_finds(
                    x,
                    y[j as int],
                    i as int,
                )),
            decreases i,
        {
            assert(x[i - 1] == a[i - 1]@ && y[j as int] == b[j as int]@);
            if a[i - 1].matches(&b[j]) {
                found = true;
            }
            i -= 1;
        }
        if !found {
            return false;
        }
        j += 1;
    }
    true
}

/// Whether each entry of `a` has an equivalent in `b`.
#[verifier::loop_isolation(false)]
fn entries_inside(a: &Vec<(Value, Value)>, b: &Vec<(Value, Value)>) -> (r: bool)
    ensures
        r == entries_within(view_entries(a), view_entries(b), 0),
    decreases a, a.len(), 1nat,
{
    let ghost x = view_entries(a);
    let ghost y = view_entries(b);
    assert(x.len() == a.len() && y.len() == b.len());
    let mut i: usize = 0;
    while i < a.len()
        invariant
            i <= a.len(),
            entries_within(x, y, 0) == entries_within(x, y, i as int),
        decreases a.len() - i,
    {
        let mut j: usize = b.len();
        let mut found = false;
        while j > 0 && !found
            invariant
                j <= b.len(),
                entry_found(x[i as int], y, b.len() as int) == (found || entry_found(
                    x[i as int],
                    y,
                    j as int,
                )),
            decreases j,
        {
            assert(x[i as int] == (a[i as int].0@, a[i as int].1@));
            assert(y[j - 1] == (b[j - 1].0@, b[j - 1].1@));
            if a[i].0.matches(&b[j - 1].0) && a[i].1.matches(&b[j - 1].1) {
                found = true;
            }
            j -= 1;
        }
        if !found {
            return false;
        }
        i += 1;
    }
    true
}

/// Whether each entry of `b` has an equivalent in `a`.
#[verifier::loop_isolation(false)]
fn entries_covered(a: &Vec<(Value, Value)>, b: &Vec<(Value, Value)>) -> (r: bool)
    ensures
        r == entries_cover(view_entries(a), view_entries(b), 0),
    decreases a, a.len(), 1nat,
{
    let ghost x = view_entries(a);
    let ghost y = view_entries(b);
    assert(x.len() == a.len() && y.len() == b.len());
    let mut j: usize = 0;
    while j < b.len()
        invariant
            j <= b.len(),
            entries_cover(x, y, 0) == entries_cover(x, y, j as int),
        decreases b.len() - j,
    {
        let mut i: usize = a.len();
        let mut found = false;
        while i > 0 && !found
            invariant
                i <= a.len(),
                entry_finds(x, y[j as int], a.len() as int) == (found || entry_finds(
                    x,
                    y[j as int],
                    i as int,
                )),
            decreases i,
        {
            assert(x[i - 1] == (a[i - 1].0@, a[i - 1].1@));
            assert(y[j as int] == (b[j as int].0@, b[j as int].1@));
            if a[i - 1].0.matches(&b[j].0) && a[i - 1].1.matches(&b[j].1) {
                found = true;
            }
            i -= 1;
        }
        if !found {
            return false;
        }
        j += 1;
    }
    true
}

} // verus!
