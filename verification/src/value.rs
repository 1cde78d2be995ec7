//! The values a circuit computes with, as far as the debugger and the input
//! checks read them, and how the debugger shows them.
use crate::debugger::Debugger;
use crate::decimal::{bracketed, bracketed_index, decimal, u64_to_string};
use crate::entries::{index_of, lemma_index_of, lookup};
use crate::index_map::variables_get_mut;
use crate::ir::Type;
use crate::resolve::{agree_except, array_text, with_variables};
use crate::variable::{plain_view, variables_view, DebugVariable, DebugVariableType, VariableView};
use vstd::prelude::*;

verus! {

#[derive(Clone, Copy, Debug, PartialEq, Eq, Structural)]
pub enum IntegerType {
    U8,
    U16,
    U32,
    U64,
    U128,
    I8,
    I16,
    I32,
    I64,
    I128,
}

/// An integer of the circuit: its width and sign, and the text it is shown as.
#[derive(Debug)]
pub struct Integer {
    pub kind: IntegerType,
    pub text: String,
}

/// A boolean of the circuit; its value is unknown while it is only allocated.
#[derive(Debug)]
pub struct Boolean {
    pub value: Option<bool>,
}

impl Boolean {
    pub fn get_value(&self) -> (r: Option<bool>)
        ensures
            r == self.value,
    {
        self.value
    }
}

/// A field element of the circuit: the text of its value, unknown while it is
/// only allocated, and the text the element is printed as.
#[derive(Debug)]
pub struct FieldType {
    pub value: Option<String>,
    pub debug_text: String,
}

/// A character of the circuit, held as the text it is shown as.
#[derive(Debug)]
pub struct Char {
    pub text: String,
}

/// An address of the circuit, held as the text it is shown as.
#[derive(Debug)]
pub struct Address {
    pub text: String,
}

/// A group element of the circuit: the texts its coordinates are shown as,
/// the text of the whole element, and the text the element is printed as.
#[derive(Debug)]
pub struct GroupValue {
    pub debug_values: Vec<String>,
    pub text: String,
    pub debug_text: String,
}

#[derive(Debug)]
pub enum ConstrainedValue {
    Address(Address),
    Boolean(Boolean),
    Char(Char),
    Field(FieldType),
    Group(GroupValue),
    Integer(Integer),
    Array(Vec<ConstrainedValue>),
    Tuple(Vec<ConstrainedValue>),
}

pub open spec fn bool_text(b: bool) -> Seq<char> {
    if b {
        seq!['t', 'r', 'u', 'e']
    } else {
        seq!['f', 'a', 'l', 's', 'e']
    }
}

pub open spec fn group_text() -> Seq<char> {
    seq!['G', 'r', 'o', 'u', 'p']
}

/// The variable that shows one coordinate of a group element.
pub open spec fn group_sub(name: Seq<char>) -> VariableView {
    plain_view(DebugVariableType::Group, name, Seq::empty(), 0, 0, 0)
}

/// The variable that shows element `k` of an array before its value is
/// known, when the array had no element variables yet.
pub open spec fn array_default(k: nat) -> VariableView {
    plain_view(DebugVariableType::Array, bracketed(k), Seq::empty(), 0, 0, 0)
}

/// The variable that shows item `k` of a tuple before its value is known,
/// when there is none to reuse.
pub open spec fn tuple_default(k: nat) -> VariableView {
    plain_view(DebugVariableType::Integer, decimal(k), Seq::empty(), 0, 0, 0)
}

/// An array's element variables are reused when there are some, and then
/// there must be one per element.
pub open spec fn array_mismatch(items_len: nat, subs: Seq<VariableView>) -> bool {
    subs.len() > 0 && items_len != subs.len()
}

/// The variable that element `k` of an array starts from.
pub open spec fn array_start(subs: Seq<VariableView>, k: int) -> VariableView {
    if subs.len() > 0 {
        VariableView { name: bracketed(k as nat), ..subs[k] }
    } else {
        array_default(k as nat)
    }
}

/// The variable that item `k` of a tuple starts from: the one already there,
/// if the value's own variable is recorded.
pub open spec fn tuple_start(subs: Seq<VariableView>, has_entry: bool, k: int) -> VariableView {
    if has_entry && k < subs.len() {
        subs[k]
    } else {
        tuple_default(k as nat)
    }
}

/// `var` once it shows `v`. `has_entry` tells whether the variable of the
/// whole value is recorded in the debug data.
pub open spec fn shown(v: ConstrainedValue, var: VariableView, has_entry: bool) -> VariableView
    decreases v, 0int,
{
    match v {
        ConstrainedValue::Address(_) => var,
        ConstrainedValue::Boolean(b) => VariableView {
            type_: DebugVariableType::Boolean,
            value: bool_text(b.value.unwrap()),
            ..var
        },
        ConstrainedValue::Field(f) => VariableView {
            type_: DebugVariableType::Field,
            value: f.value.unwrap()@,
            ..var
        },
        ConstrainedValue::Char(c) => VariableView { type_: DebugVariableType::Char, value: c.text@, ..var },
        ConstrainedValue::Group(g) => if g.debug_values@.len() >= 2 {
            VariableView {
                sub_variables: var.sub_variables.push(group_sub(g.debug_values@[0]@)).push(
                    group_sub(g.debug_values@[1]@),
                ),
                ..var
            }
        } else {
            VariableView { type_: DebugVariableType::Group, value: g.text@, ..var }
        },
        ConstrainedValue::Integer(i) => VariableView {
            type_: DebugVariableType::Integer,
            value: i.text@,
            ..var
        },
        ConstrainedValue::Array(items) => {
            proof {
                assert(decreases_to!(v => items));
                assert(decreases_to!(items => items@));
            }
            VariableView {
                type_: DebugVariableType::Array,
                value: array_text(),
                sub_variables: if array_mismatch(items@.len(), var.sub_variables) {
                    Seq::empty()
                } else {
                    array_elems(items@, var.sub_variables, has_entry, items@.len() as int)
                },
                ..var
            }
        },
        ConstrainedValue::Tuple(items) => {
            proof {
                assert(decreases_to!(v => items));
                assert(decreases_to!(items => items@));
            }
            VariableView {
                sub_variables: tuple_elems(items@, var.sub_variables, has_entry, items@.len() as int),
                ..var
            }
        },
    }
}

/// The variables of the first `n` elements of an array.
pub open spec fn array_elems(items: Seq<ConstrainedValue>, subs: Seq<VariableView>, has_entry: bool, n: int) -> Seq<VariableView>
    decreases items, n,
{
    if n <= 0 || n > items.len() {
        Seq::empty()
    } else {
        proof {
            assert(decreases_to!(items => items[n - 1]));
        }
        array_elems(items, subs, has_entry, n - 1).push(shown(items[n - 1], array_start(subs, n - 1), has_entry))
    }
}

/// The variables of the first `n` items of a tuple.
pub open spec fn tuple_elems(items: Seq<ConstrainedValue>, subs: Seq<VariableView>, has_entry: bool, n: int) -> Seq<VariableView>
    decreases items, n,
{
    if n <= 0 || n > items.len() {
        Seq::empty()
    } else {
        proof {
            assert(decreases_to!(items => items[n - 1]));
        }
        tuple_elems(items, subs, has_entry, n - 1).push(shown(items[n - 1], tuple_start(subs, has_entry, n - 1), has_entry))
    }
}

/// Showing `v` in `var` does not fail: every boolean and field element that
/// is shown has a value.
pub open spec fn shown_ok(v: ConstrainedValue, var: VariableView, has_entry: bool) -> bool
    decreases v, 0int,
{
    match v {
        ConstrainedValue::Boolean(b) => b.value is Some,
        ConstrainedValue::Field(f) => f.value is Some,
        ConstrainedValue::Array(items) => {
            proof {
                assert(decreases_to!(v => items));
                assert(decreases_to!(items => items@));
            }
            array_mismatch(items@.len(), var.sub_variables)
                || array_elems_ok(items@, var.sub_variables, has_entry, items@.len() as int)
        },
        ConstrainedValue::Tuple(items) => {
            proof {
                assert(decreases_to!(v => items));
                assert(decreases_to!(items => items@));
            }
            tuple_elems_ok(items@, var.sub_variables, has_entry, items@.len() as int)
        },
        _ => true,
    }
}

pub open spec fn array_elems_ok(items: Seq<ConstrainedValue>, subs: Seq<VariableView>, has_entry: bool, n: int) -> bool
    decreases items, n,
{
    if n <= 0 || n > items.len() {
        true
    } else {
        proof {
            assert(decreases_to!(items => items[n - 1]));
        }
        array_elems_ok(items, subs, has_entry, n - 1) && shown_ok(items[n - 1], array_start(subs, n - 1), has_entry)
    }
}

pub open spec fn tuple_elems_ok(items: Seq<ConstrainedValue>, subs: Seq<VariableView>, has_entry: bool, n: int) -> bool
    decreases items, n,
{
    if n <= 0 || n > items.len() {
        true
    } else {
        proof {
            assert(decreases_to!(items => items[n - 1]));
        }
        tuple_elems_ok(items, subs, has_entry, n - 1) && shown_ok(items[n - 1], tuple_start(subs, has_entry, n - 1), has_entry)
    }
}

/// The recorded variable of a value before it is shown: a group element is
/// first marked as a group.
pub open spec fn top_start(v: ConstrainedValue, x: VariableView) -> VariableView {
    match v {
        ConstrainedValue::Group(_) => VariableView { value: group_text(), type_: DebugVariableType::Group, ..x },
        _ => x,
    }
}

/// The variable map after showing `v` in the variable under `id`.
pub open spec fn shown_top(entries: Seq<(u32, VariableView)>, id: u32, v: ConstrainedValue) -> Seq<(u32, VariableView)> {
    match lookup(entries, id) {
        Some(x) => if v is Array && array_mismatch(v->Array_0@.len(), x.sub_variables) {
            entries
        } else {
            entries.update(index_of(entries, id), (id, shown(v, top_start(v, x), true)))
        },
        None => entries,
    }
}

/// Showing `v` in the variable under `id` does not fail.
pub open spec fn shown_top_ok(entries: Seq<(u32, VariableView)>, id: u32, v: ConstrainedValue) -> bool {
    match lookup(entries, id) {
        Some(x) => (v is Array && array_mismatch(v->Array_0@.len(), x.sub_variables))
            || shown_ok(v, top_start(v, x), true),
        None => true,
    }
}


/// Showing a value in the variable under `id` (`resolve_debug_value`) keeps
/// every id of the variable map at its place and leaves every other variable
/// as it was.
pub proof fn law_show_touches_one_variable(entries: Seq<(u32, VariableView)>, id: u32, v: ConstrainedValue)
    ensures
        agree_except(entries, shown_top(entries, id, v), index_of(entries, id)),
{
    lemma_index_of(entries, id);
}

pub proof fn lemma_array_elems_ok(items: Seq<ConstrainedValue>, subs: Seq<VariableView>, has_entry: bool, n: int, k: int)
    requires
        array_elems_ok(items, subs, has_entry, n),
        0 <= k < n <= items.len(),
    ensures
        shown_ok(items[k], array_start(subs, k), has_entry),
    decreases n,
{
    if k < n - 1 {
        lemma_array_elems_ok(items, subs, has_entry, n - 1, k);
    }
}

pub proof fn lemma_tuple_elems_ok(items: Seq<ConstrainedValue>, subs: Seq<VariableView>, has_entry: bool, n: int, k: int)
    requires
        tuple_elems_ok(items, subs, has_entry, n),
        0 <= k < n <= items.len(),
    ensures
        shown_ok(items[k], tuple_start(subs, has_entry, k), has_entry),
    decreases n,
{
    if k < n - 1 {
        lemma_tuple_elems_ok(items, subs, has_entry, n - 1, k);
    }
}

/// Shows `value` in `var`: see `shown`.
fn show_in(value: &ConstrainedValue, var: &mut DebugVariable, has_entry: bool)
    requires
        shown_ok(*value, old(var)@, has_entry),
    ensures
        final(var)@ == shown(*value, old(var)@, has_entry),
    decreases value,
{
    match value {
        ConstrainedValue::Address(_) => {}
        ConstrainedValue::Boolean(b) => {
            var.type_ = DebugVariableType::Boolean;
            proof {
                reveal_strlit("true");
                reveal_strlit("false");
            }
            var.value = if b.get_value().unwrap() { String::from_str("true") } else { String::from_str("false") };
            assert(var.value@ =~= bool_text(b.value.unwrap()));
        }
        ConstrainedValue::Field(f) => {
            var.type_ = DebugVariableType::Field;
            match &f.value {
                Some(text) => {
                    var.value = text.clone();
                }
                None => {}
            }
        }
        ConstrainedValue::Char(c) => {
            var.type_ = DebugVariableType::Char;
            var.value = c.text.clone();
        }
        ConstrainedValue::Group(g) => {
            if g.debug_values.len() >= 2 {
                let x = g.debug_values[0].clone();
                let y = g.debug_values[1].clone();
                let ghost s0 = var.sub_variables@;
                let sx = DebugVariable::new_some_variable(DebugVariableType::Group, x, String::new(), 0, 0);
                let sy = DebugVariable::new_some_variable(DebugVariableType::Group, y, String::new(), 0, 0);
                var.sub_variables.push(sx);
                var.sub_variables.push(sy);
                proof {
                    assert(var.sub_variables@.drop_last().drop_last() =~= s0);
                    assert(var.sub_variables@.drop_last() =~= s0.push(sx));
                }
            } else {
                var.type_ = DebugVariableType::Group;
                var.value = g.text.clone();
            }
        }
        ConstrainedValue::Integer(i) => {
            var.type_ = DebugVariableType::Integer;
            var.value = i.text.clone();
        }
        ConstrainedValue::Array(items) => {
            let ghost var0 = var@;
            proof {
                reveal_strlit("Array");
            }
            var.type_ = DebugVariableType::Array;
            var.value = String::from_str("Array");
            assert(var.value@ =~= array_text());
            let mut subs: Vec<DebugVariable> = Vec::new();
            std::mem::swap(&mut subs, &mut var.sub_variables);
            let ghost all = subs@;
            proof {
                crate::variable::lemma_variables_view_len(all);
                assert(variables_view(var.sub_variables@) =~= Seq::<VariableView>::empty());
            }
            let sub_len = subs.len();
            let n = items.len();
            if sub_len > 0 && n != sub_len {
                return;
            }
            for index in 0..n
                invariant
                    n == items@.len(),
                    *value == ConstrainedValue::Array(*items),
                    var0 == old(var)@,
                    variables_view(all) == var0.sub_variables,
                    all.len() == sub_len,
                    var0.sub_variables.len() == sub_len,
                    !array_mismatch(n as nat, var0.sub_variables),
                    sub_len > 0 ==> subs@ == all.subrange(index as int, sub_len as int),
                    array_elems_ok(items@, var0.sub_variables, has_entry, n as int),
                    var@ == (VariableView {
                        type_: DebugVariableType::Array,
                        value: array_text(),
                        sub_variables: array_elems(items@, var0.sub_variables, has_entry, index as int),
                        ..var0
                    }),
            {
                let name = bracketed_index(index as u64);
                let mut element = if sub_len > 0 {
                    assert(subs@[0] == all[index as int]);
                    let mut e = subs.remove(0);
                    e.name = name;
                    proof {
                        crate::variable::lemma_variables_view_index(all, index as int);
                        assert(subs@ =~= all.subrange(index + 1, sub_len as int));
                    }
                    e
                } else {
                    DebugVariable::new_some_variable(DebugVariableType::Array, name, String::new(), 0, 0)
                };
                proof {
                    assert(element@ == array_start(var0.sub_variables, index as int));
                    lemma_array_elems_ok(items@, var0.sub_variables, has_entry, n as int, index as int);
                    let ghost v0 = *value;
                    assert(v0->Array_0 == *items);
                    assert(decreases_to!(v0 => v0->Array_0));
                    assert(decreases_to!(*items => items@));
                    assert(decreases_to!(items@ => items@[index as int]));
                }
                show_in(&items[index], &mut element, has_entry);
                let ghost s0 = var.sub_variables@;
                let ghost ev = element@;
                var.sub_variables.push(element);
                proof {
                    assert(var.sub_variables@.drop_last() =~= s0);
                    assert(variables_view(var.sub_variables@) == variables_view(s0).push(ev));
                }
            }
        }
        ConstrainedValue::Tuple(items) => {
            let ghost var0 = var@;
            let mut subs: Vec<DebugVariable> = Vec::new();
            std::mem::swap(&mut subs, &mut var.sub_variables);
            let ghost all = subs@;
            proof {
                crate::variable::lemma_variables_view_len(all);
                assert(variables_view(var.sub_variables@) =~= Seq::<VariableView>::empty());
            }
            let sub_len = subs.len();
            let n = items.len();
            for index in 0..n
                invariant
                    n == items@.len(),
                    *value == ConstrainedValue::Tuple(*items),
                    var0 == old(var)@,
                    variables_view(all) == var0.sub_variables,
                    all.len() == sub_len,
                    var0.sub_variables.len() == sub_len,
                    has_entry && index <= sub_len ==> subs@ == all.subrange(index as int, sub_len as int),
                    tuple_elems_ok(items@, var0.sub_variables, has_entry, n as int),
                    var@ == (VariableView {
                        sub_variables: tuple_elems(items@, var0.sub_variables, has_entry, index as int),
                        ..var0
                    }),
            {
                let mut element = if has_entry && index < sub_len {
                    assert(subs@[0] == all[index as int]);
                    let e = subs.remove(0);
                    proof {
                        crate::variable::lemma_variables_view_index(all, index as int);
                        assert(subs@ =~= all.subrange(index + 1, sub_len as int));
                    }
                    e
                } else {
                    let name = u64_to_string(index as u64);
                    let e = DebugVariable::new_some_variable(DebugVariableType::Integer, name, String::new(), 0, 0);
                    assert(e@ == tuple_default(index as nat));
                    e
                };
                proof {
                    assert(element@ == tuple_start(var0.sub_variables, has_entry, index as int));
                    lemma_tuple_elems_ok(items@, var0.sub_variables, has_entry, n as int, index as int);
                    let ghost v0 = *value;
                    assert(v0->Tuple_0 == *items);
                    assert(decreases_to!(v0 => v0->Tuple_0));
                    assert(decreases_to!(*items => items@));
                    assert(decreases_to!(items@ => items@[index as int]));
                }
                show_in(&items[index], &mut element, has_entry);
                let ghost s0 = var.sub_variables@;
                let ghost ev = element@;
                var.sub_variables.push(element);
                proof {
                    assert(var.sub_variables@.drop_last() =~= s0);
                    assert(variables_view(var.sub_variables@) == variables_view(s0).push(ev));
                }
            }
        }
    }
}

impl ConstrainedValue {
    /// In debug mode, shows this value in the variable recorded under
    /// `var_id`: see `shown_top`.
    pub fn resolve_debug_value(&mut self, debugger: &mut Debugger, var_id: u32)
        requires
            old(debugger).is_debug_mode ==> shown_top_ok(old(debugger)@.debug_data.variables, var_id, *old(self)),
        ensures
            *final(self) == *old(self),
            final(debugger)@ == if old(debugger).is_debug_mode {
                with_variables(old(debugger)@, shown_top(old(debugger)@.debug_data.variables, var_id, *old(self)))
            } else {
                old(debugger)@
            },
    {
        if !debugger.is_debug_mode {
            return;
        }
        let ghost e0 = debugger@.debug_data.variables;
        let ghost i = index_of(e0, var_id);
        proof {
            lemma_index_of(e0, var_id);
        }
        match variables_get_mut(&mut debugger.debug_data.variables, var_id) {
            Some(entry) => {
                let mismatch = match &*self {
                    ConstrainedValue::Array(items) => entry.sub_variables.len() > 0
                        && items.len() != entry.sub_variables.len(),
                    _ => false,
                };
                proof {
                    crate::variable::lemma_variables_view_len(entry.sub_variables@);
                }
                if mismatch {
                    proof {
                        assert(e0.update(i, (var_id, e0[i].1)) =~= e0);
                    }
                    return;
                }
                match &*self {
                    ConstrainedValue::Group(_) => {
                        proof {
                            reveal_strlit("Group");
                        }
                        entry.value = String::from_str("Group");
                        entry.type_ = DebugVariableType::Group;
                        assert(entry.value@ =~= group_text());
                    }
                    _ => {}
                }
                show_in(&*self, entry, true);
            }
            None => {}
        }
    }
}

/// Whether an integer of this width and sign is a value of type `t`.
pub open spec fn integer_matches(k: IntegerType, t: Type) -> bool {
    match (k, t) {
        (IntegerType::U8, Type::U8) => true,
        (IntegerType::U16, Type::U16) => true,
        (IntegerType::U32, Type::U32) => true,
        (IntegerType::U64, Type::U64) => true,
        (IntegerType::U128, Type::U128) => true,
        (IntegerType::I8, Type::I8) => true,
        (IntegerType::I16, Type::I16) => true,
        (IntegerType::I32, Type::I32) => true,
        (IntegerType::I64, Type::I64) => true,
        (IntegerType::I128, Type::I128) => true,
        _ => false,
    }
}

/// The member types of a circuit type, in order.
pub open spec fn member_types(members: Seq<(String, Type)>) -> Seq<Type> {
    members.map_values(|m: (String, Type)| m.1)
}

/// Whether `v` is a value of type `t`. An array must have the declared
/// length, where one is declared; a tuple is held against a tuple type or a
/// circuit's members item by item, as far as the shorter of the two goes.
pub open spec fn matches_type(v: ConstrainedValue, t: Type) -> bool
    decreases v, 0int,
{
    match v {
        ConstrainedValue::Address(_) => t is Address,
        ConstrainedValue::Boolean(_) => t is Boolean,
        ConstrainedValue::Field(_) => t is Field,
        ConstrainedValue::Char(_) => t is Char,
        ConstrainedValue::Group(_) => t is Group,
        ConstrainedValue::Integer(i) => integer_matches(i.kind, t),
        ConstrainedValue::Array(items) => {
            proof {
                assert(decreases_to!(v => items));
                assert(decreases_to!(items => items@));
            }
            match t {
                Type::Array(inner, len) => {
                    &&& (match len {
                        Some(l) => items@.len() == l,
                        None => true,
                    })
                    &&& all_match(items@, *inner, items@.len() as int)
                },
                _ => false,
            }
        },
        ConstrainedValue::Tuple(items) => {
            proof {
                assert(decreases_to!(v => items));
                assert(decreases_to!(items => items@));
            }
            match t {
                Type::Tuple(types) => zip_match(items@, types@, shorter(items@.len(), types@.len())),
                Type::Circuit(members) => zip_match(
                    items@,
                    member_types(members@),
                    shorter(items@.len(), members@.len()),
                ),
                _ => false,
            }
        },
    }
}

pub open spec fn shorter(a: nat, b: nat) -> int {
    if a <= b { a as int } else { b as int }
}

/// The first `n` items are all values of type `t`.
pub open spec fn all_match(items: Seq<ConstrainedValue>, t: Type, n: int) -> bool
    decreases items, n,
{
    if n <= 0 || n > items.len() {
        true
    } else {
        proof {
            assert(decreases_to!(items => items[n - 1]));
        }
        all_match(items, t, n - 1) && matches_type(items[n - 1], t)
    }
}

/// The first `n` items are values of the types at the same positions.
pub open spec fn zip_match(items: Seq<ConstrainedValue>, types: Seq<Type>, n: int) -> bool
    decreases items, n,
{
    if n <= 0 || n > items.len() {
        true
    } else {
        proof {
            assert(decreases_to!(items => items[n - 1]));
        }
        zip_match(items, types, n - 1) && matches_type(items[n - 1], types[n - 1])
    }
}

pub proof fn lemma_all_match(items: Seq<ConstrainedValue>, t: Type, n: int, k: int)
    requires
        0 <= k < n <= items.len(),
    ensures
        all_match(items, t, n) ==> matches_type(items[k], t),
    decreases n,
{
    if k < n - 1 {
        lemma_all_match(items, t, n - 1, k);
    }
}

pub proof fn lemma_zip_match(items: Seq<ConstrainedValue>, types: Seq<Type>, n: int, k: int)
    requires
        0 <= k < n <= items.len(),
    ensures
        zip_match(items, types, n) ==> matches_type(items[k], types[k]),
    decreases n,
{
    if k < n - 1 {
        lemma_zip_match(items, types, n - 1, k);
    }
}

/// Holds each of `items` against the type at the same position, as far as
/// the shorter of the two goes.
fn items_match(parent: &ConstrainedValue, items: &Vec<ConstrainedValue>, types: &Vec<Type>) -> (r: bool)
    requires
        *parent == ConstrainedValue::Tuple(*items),
    ensures
        r == zip_match(items@, types@, shorter(items@.len(), types@.len())),
    decreases parent, 0int,
{
    let n = if items.len() <= types.len() { items.len() } else { types.len() };
    let mut k: usize = 0;
    while k < n
        invariant
            *parent == ConstrainedValue::Tuple(*items),
            n == shorter(items@.len(), types@.len()),
            k <= n,
            zip_match(items@, types@, k as int),
        decreases n - k,
    {
        proof {
            let ghost v0 = *parent;
            assert(v0->Tuple_0 == *items);
            assert(decreases_to!(v0 => v0->Tuple_0));
            assert(decreases_to!(*items => items@));
            assert(decreases_to!(items@ => items@[k as int]));
        }
        if !items[k].matches_input_type(&types[k]) {
            proof {
                lemma_zip_match(items@, types@, n as int, k as int);
            }
            return false;
        }
        k = k + 1;
    }
    true
}

/// Holds each of `items` against the type of the circuit member at the same
/// position, as far as the shorter of the two goes.
fn members_match(parent: &ConstrainedValue, items: &Vec<ConstrainedValue>, members: &Vec<(String, Type)>) -> (r: bool)
    requires
        *parent == ConstrainedValue::Tuple(*items),
    ensures
        r == zip_match(items@, member_types(members@), shorter(items@.len(), members@.len())),
    decreases parent, 0int,
{
    let n = if items.len() <= members.len() { items.len() } else { members.len() };
    let ghost types = member_types(members@);
    let mut k: usize = 0;
    while k < n
        invariant
            *parent == ConstrainedValue::Tuple(*items),
            types == member_types(members@),
            n == shorter(items@.len(), members@.len()),
            k <= n,
            zip_match(items@, types, k as int),
        decreases n - k,
    {
        proof {
            let ghost v0 = *parent;
            assert(v0->Tuple_0 == *items);
            assert(decreases_to!(v0 => v0->Tuple_0));
            assert(decreases_to!(*items => items@));
            assert(decreases_to!(items@ => items@[k as int]));
        }
        if !items[k].matches_input_type(&members[k].1) {
            proof {
                lemma_zip_match(items@, types, n as int, k as int);
            }
            return false;
        }
        k = k + 1;
    }
    true
}


pub open spec fn allocated_text() -> Seq<char> {
    seq!['[', 'a', 'l', 'l', 'o', 'c', 'a', 't', 'e', 'd', ']']
}

/// The text a value is printed as: an array of characters as the
/// characters one after the other, another array in square brackets and a
/// tuple in round brackets, their items separated by a comma and a space.
pub open spec fn printed(v: ConstrainedValue) -> Seq<char>
    decreases v, 0int,
{
    match v {
        ConstrainedValue::Address(a) => a.text@,
        ConstrainedValue::Boolean(b) => match b.value {
            Some(x) => bool_text(x),
            None => allocated_text(),
        },
        ConstrainedValue::Char(c) => c.text@,
        ConstrainedValue::Field(f) => f.debug_text@,
        ConstrainedValue::Group(g) => g.debug_text@,
        ConstrainedValue::Integer(i) => i.text@,
        ConstrainedValue::Array(items) => {
            proof {
                assert(decreases_to!(v => items));
                assert(decreases_to!(items => items@));
            }
            if items@.len() > 0 && items@[0] is Char {
                printed_run(items@, items@.len() as int)
            } else {
                seq!['['] + printed_list(items@, items@.len() as int) + seq![']']
            }
        },
        ConstrainedValue::Tuple(items) => {
            proof {
                assert(decreases_to!(v => items));
                assert(decreases_to!(items => items@));
            }
            seq!['('] + printed_list(items@, items@.len() as int) + seq![')']
        },
    }
}

/// The first `n` items printed one after the other.
pub open spec fn printed_run(items: Seq<ConstrainedValue>, n: int) -> Seq<char>
    decreases items, n,
{
    if n <= 0 || n > items.len() {
        Seq::empty()
    } else {
        proof {
            assert(decreases_to!(items => items[n - 1]));
        }
        printed_run(items, n - 1) + printed(items[n - 1])
    }
}

/// The first `n` items printed, separated by a comma and a space.
pub open spec fn printed_list(items: Seq<ConstrainedValue>, n: int) -> Seq<char>
    decreases items, n,
{
    if n <= 0 || n > items.len() {
        Seq::empty()
    } else {
        proof {
            assert(decreases_to!(items => items[n - 1]));
        }
        if n == 1 {
            printed(items[0])
        } else {
            printed_list(items, n - 1) + seq![',', ' '] + printed(items[n - 1])
        }
    }
}

/// A value can be printed: it holds no empty array, whose first item
/// printing looks at.
pub open spec fn printable(v: ConstrainedValue) -> bool
    decreases v, 0int,
{
    match v {
        ConstrainedValue::Array(items) => {
            proof {
                assert(decreases_to!(v => items));
                assert(decreases_to!(items => items@));
            }
            items@.len() > 0 && all_printable(items@, items@.len() as int)
        },
        ConstrainedValue::Tuple(items) => {
            proof {
                assert(decreases_to!(v => items));
                assert(decreases_to!(items => items@));
            }
            all_printable(items@, items@.len() as int)
        },
        _ => true,
    }
}

pub open spec fn all_printable(items: Seq<ConstrainedValue>, n: int) -> bool
    decreases items, n,
{
    if n <= 0 || n > items.len() {
        true
    } else {
        proof {
            assert(decreases_to!(items => items[n - 1]));
        }
        all_printable(items, n - 1) && printable(items[n - 1])
    }
}

pub proof fn lemma_all_printable(items: Seq<ConstrainedValue>, n: int, k: int)
    requires
        all_printable(items, n),
        0 <= k < n <= items.len(),
    ensures
        printable(items[k]),
    decreases n,
{
    if k < n - 1 {
        lemma_all_printable(items, n - 1, k);
    }
}

/// Appends the items of `parent`, printed: one after the other where
/// `separated` is false, else separated by a comma and a space.
fn print_items(parent: &ConstrainedValue, items: &Vec<ConstrainedValue>, separated: bool, out: &mut String)
    requires
        *parent == ConstrainedValue::Array(*items) || *parent == ConstrainedValue::Tuple(*items),
        all_printable(items@, items@.len() as int),
    ensures
        final(out)@ == old(out)@ + if separated {
            printed_list(items@, items@.len() as int)
        } else {
            printed_run(items@, items@.len() as int)
        },
    decreases parent, 0int,
{
    let ghost o0 = out@;
    let n = items.len();
    let mut k: usize = 0;
    while k < n
        invariant
            *parent == ConstrainedValue::Array(*items) || *parent == ConstrainedValue::Tuple(*items),
            all_printable(items@, items@.len() as int),
            n == items@.len(),
            k <= n,
            out@ == o0 + if separated {
                printed_list(items@, k as int)
            } else {
                printed_run(items@, k as int)
            },
        decreases n - k,
    {
        proof {
            let ghost v0 = *parent;
            if v0 is Array {
                assert(v0->Array_0 == *items);
                assert(decreases_to!(v0 => v0->Array_0));
            } else {
                assert(v0->Tuple_0 == *items);
                assert(decreases_to!(v0 => v0->Tuple_0));
            }
            assert(decreases_to!(*items => items@));
            assert(decreases_to!(items@ => items@[k as int]));
            lemma_all_printable(items@, n as int, k as int);
        }
        if separated && k > 0 {
            proof {
                reveal_strlit(", ");
            }
            out.append(", ");
        }
        let text = items[k].to_display_string();
        out.append(text.as_str());
        proof {
            if separated && k > 0 {
                assert(out@ =~= o0 + printed_list(items@, k + 1));
            } else if separated {
                assert(out@ =~= o0 + printed_list(items@, k + 1));
            } else {
                assert(out@ =~= o0 + printed_run(items@, k + 1));
            }
        }
        k = k + 1;
    }
}


/// Two values can be compared or selected between, element by element: the
/// same kind of value, and for arrays and tuples the same number of items,
/// each pair of items again of one structure.
pub open spec fn same_structure(a: ConstrainedValue, b: ConstrainedValue) -> bool
    decreases a, 0int,
{
    match (a, b) {
        (ConstrainedValue::Address(_), ConstrainedValue::Address(_)) => true,
        (ConstrainedValue::Boolean(_), ConstrainedValue::Boolean(_)) => true,
        (ConstrainedValue::Char(_), ConstrainedValue::Char(_)) => true,
        (ConstrainedValue::Field(_), ConstrainedValue::Field(_)) => true,
        (ConstrainedValue::Group(_), ConstrainedValue::Group(_)) => true,
        (ConstrainedValue::Integer(_), ConstrainedValue::Integer(_)) => true,
        (ConstrainedValue::Array(x), ConstrainedValue::Array(y)) => {
            proof {
                assert(decreases_to!(a => x));
                assert(decreases_to!(x => x@));
            }
            x@.len() == y@.len() && pairs_match(x@, y@, x@.len() as int)
        },
        (ConstrainedValue::Tuple(x), ConstrainedValue::Tuple(y)) => {
            proof {
                assert(decreases_to!(a => x));
                assert(decreases_to!(x => x@));
            }
            x@.len() == y@.len() && pairs_match(x@, y@, x@.len() as int)
        },
        _ => false,
    }
}

/// The first `n` pairs of items have one structure.
pub open spec fn pairs_match(xs: Seq<ConstrainedValue>, ys: Seq<ConstrainedValue>, n: int) -> bool
    decreases xs, n,
{
    if n <= 0 || n > xs.len() {
        true
    } else {
        proof {
            assert(decreases_to!(xs => xs[n - 1]));
        }
        pairs_match(xs, ys, n - 1) && same_structure(xs[n - 1], ys[n - 1])
    }
}

pub proof fn lemma_pairs_match(xs: Seq<ConstrainedValue>, ys: Seq<ConstrainedValue>, n: int, k: int)
    requires
        0 <= k < n <= xs.len(),
    ensures
        pairs_match(xs, ys, n) ==> same_structure(xs[k], ys[k]),
    decreases n,
{
    if k < n - 1 {
        lemma_pairs_match(xs, ys, n - 1, k);
    }
}

fn items_match_structure(parent: &ConstrainedValue, xs: &Vec<ConstrainedValue>, ys: &Vec<ConstrainedValue>) -> (r: bool)
    requires
        *parent == ConstrainedValue::Array(*xs) || *parent == ConstrainedValue::Tuple(*xs),
        xs@.len() == ys@.len(),
    ensures
        r == pairs_match(xs@, ys@, xs@.len() as int),
    decreases parent, 0int,
{
    let n = xs.len();
    let mut k: usize = 0;
    while k < n
        invariant
            *parent == ConstrainedValue::Array(*xs) || *parent == ConstrainedValue::Tuple(*xs),
            xs@.len() == ys@.len(),
            n == xs@.len(),
            k <= n,
            pairs_match(xs@, ys@, k as int),
        decreases n - k,
    {
        proof {
            let ghost v0 = *parent;
            if v0 is Array {
                assert(v0->Array_0 == *xs);
                assert(decreases_to!(v0 => v0->Array_0));
            } else {
                assert(v0->Tuple_0 == *xs);
                assert(decreases_to!(v0 => v0->Tuple_0));
            }
            assert(decreases_to!(*xs => xs@));
            assert(decreases_to!(xs@ => xs@[k as int]));
        }
        if !xs[k].matching_structure(&ys[k]) {
            proof {
                lemma_pairs_match(xs@, ys@, n as int, k as int);
            }
            return false;
        }
        k = k + 1;
    }
    true
}


/// The input type of an integer's width and sign.
pub open spec fn integer_type(k: IntegerType) -> Type {
    match k {
        IntegerType::U8 => Type::U8,
        IntegerType::U16 => Type::U16,
        IntegerType::U32 => Type::U32,
        IntegerType::U64 => Type::U64,
        IntegerType::U128 => Type::U128,
        IntegerType::I8 => Type::I8,
        IntegerType::I16 => Type::I16,
        IntegerType::I32 => Type::I32,
        IntegerType::I64 => Type::I64,
        IntegerType::I128 => Type::I128,
    }
}

/// An integer input matches exactly the type of its own width and sign.
pub proof fn law_integer_matches_own_type(i: Integer, t: Type)
    ensures
        matches_type(ConstrainedValue::Integer(i), t) <==> t == integer_type(i.kind),
{
}

/// Every value has one structure with itself, so a value can always be
/// compared with, or selected against, itself.
pub proof fn law_structure_reflexive(v: ConstrainedValue)
    ensures
        same_structure(v, v),
    decreases v, 0int,
{
    match v {
        ConstrainedValue::Array(items) => {
            assert(decreases_to!(v => items));
            assert(decreases_to!(items => items@));
            lemma_pairs_reflexive(items@, items@.len() as int);
        },
        ConstrainedValue::Tuple(items) => {
            assert(decreases_to!(v => items));
            assert(decreases_to!(items => items@));
            lemma_pairs_reflexive(items@, items@.len() as int);
        },
        _ => {},
    }
}

proof fn lemma_pairs_reflexive(xs: Seq<ConstrainedValue>, n: int)
    ensures
        pairs_match(xs, xs, n),
    decreases xs, n,
{
    if 0 < n <= xs.len() {
        assert(decreases_to!(xs => xs[n - 1]));
        lemma_pairs_reflexive(xs, n - 1);
        law_structure_reflexive(xs[n - 1]);
    }
}

/// Having one structure does not depend on the order of the two values.
pub proof fn law_structure_symmetric(a: ConstrainedValue, b: ConstrainedValue)
    ensures
        same_structure(a, b) == same_structure(b, a),
    decreases a, 0int,
{
    match (a, b) {
        (ConstrainedValue::Array(x), ConstrainedValue::Array(y)) => {
            assert(decreases_to!(a => x));
            assert(decreases_to!(x => x@));
            if x@.len() == y@.len() {
                lemma_pairs_symmetric(x@, y@, x@.len() as int);
            }
        },
        (ConstrainedValue::Tuple(x), ConstrainedValue::Tuple(y)) => {
            assert(decreases_to!(a => x));
            assert(decreases_to!(x => x@));
            if x@.len() == y@.len() {
                lemma_pairs_symmetric(x@, y@, x@.len() as int);
            }
        },
        _ => {},
    }
}

proof fn lemma_pairs_symmetric(xs: Seq<ConstrainedValue>, ys: Seq<ConstrainedValue>, n: int)
    requires
        xs.len() == ys.len(),
    ensures
        pairs_match(xs, ys, n) == pairs_match(ys, xs, n),
    decreases xs, n,
{
    if 0 < n <= xs.len() {
        assert(decreases_to!(xs => xs[n - 1]));
        lemma_pairs_symmetric(xs, ys, n - 1);
        law_structure_symmetric(xs[n - 1], ys[n - 1]);
    }
}

/// Any two values of the same scalar kind (address, boolean, character,
/// field element, group element, integer) have one structure, whatever
/// they hold.
pub proof fn law_scalars_of_a_kind_match(a: ConstrainedValue, b: ConstrainedValue)
    requires
        (a is Address && b is Address) || (a is Boolean && b is Boolean) || (a is Char && b is Char)
            || (a is Field && b is Field) || (a is Group && b is Group) || (a is Integer && b is Integer),
    ensures
        same_structure(a, b),
{
}

impl ConstrainedValue {
    /// Whether this value and `other` have one structure (see
    /// `same_structure`), as comparing them under a condition and selecting
    /// between them ask; where they do not, both are unsatisfiable.
    pub fn matching_structure(&self, other: &Self) -> (r: bool)
        ensures
            r == same_structure(*self, *other),
        decreases self, 1int,
    {
        match (self, other) {
            (ConstrainedValue::Address(_), ConstrainedValue::Address(_)) => true,
            (ConstrainedValue::Boolean(_), ConstrainedValue::Boolean(_)) => true,
            (ConstrainedValue::Char(_), ConstrainedValue::Char(_)) => true,
            (ConstrainedValue::Field(_), ConstrainedValue::Field(_)) => true,
            (ConstrainedValue::Group(_), ConstrainedValue::Group(_)) => true,
            (ConstrainedValue::Integer(_), ConstrainedValue::Integer(_)) => true,
            (ConstrainedValue::Array(x), ConstrainedValue::Array(y)) => {
                if x.len() != y.len() {
                    return false;
                }
                items_match_structure(self, x, y)
            },
            (ConstrainedValue::Tuple(x), ConstrainedValue::Tuple(y)) => {
                if x.len() != y.len() {
                    return false;
                }
                items_match_structure(self, x, y)
            },
            _ => false,
        }
    }

    /// The text this value is printed as: see `printed`.
    pub fn to_display_string(&self) -> (s: String)
        requires
            printable(*self),
        ensures
            s@ == printed(*self),
        decreases self, 1int,
    {
        match self {
            ConstrainedValue::Address(a) => a.text.clone(),
            ConstrainedValue::Boolean(b) => match b.value {
                Some(x) => {
                    proof {
                        reveal_strlit("true");
                        reveal_strlit("false");
                    }
                    let t = if x { String::from_str("true") } else { String::from_str("false") };
                    assert(t@ =~= bool_text(x));
                    t
                },
                None => {
                    proof {
                        reveal_strlit("[allocated]");
                    }
                    let t = String::from_str("[allocated]");
                    assert(t@ =~= allocated_text());
                    t
                },
            },
            ConstrainedValue::Char(c) => c.text.clone(),
            ConstrainedValue::Field(f) => f.debug_text.clone(),
            ConstrainedValue::Group(g) => g.debug_text.clone(),
            ConstrainedValue::Integer(i) => i.text.clone(),
            ConstrainedValue::Array(items) => {
                let first_is_char = match &items[0] {
                    ConstrainedValue::Char(_) => true,
                    _ => false,
                };
                if first_is_char {
                    let mut out = String::new();
                    print_items(self, items, false, &mut out);
                    assert(out@ =~= printed(*self));
                    out
                } else {
                    proof {
                        reveal_strlit("[");
                        reveal_strlit("]");
                    }
                    let mut out = String::from_str("[");
                    print_items(self, items, true, &mut out);
                    out.append("]");
                    assert(out@ =~= printed(*self));
                    out
                }
            },
            ConstrainedValue::Tuple(items) => {
                proof {
                    reveal_strlit("(");
                    reveal_strlit(")");
                }
                let mut out = String::from_str("(");
                print_items(self, items, true, &mut out);
                out.append(")");
                assert(out@ =~= printed(*self));
                out
            },
        }
    }

    /// The boolean this value holds, or the value itself where it is none.
    pub fn extract_bool(&self) -> (r: Result<&Boolean, &Self>)
        ensures
            match r {
                Ok(b) => *self == ConstrainedValue::Boolean(*b),
                Err(e) => *e == *self && !(*self is Boolean),
            },
    {
        match self {
            ConstrainedValue::Boolean(x) => Ok(x),
            value => Err(value),
        }
    }

    /// The integer this value holds, or the value itself where it is none.
    pub fn extract_integer(&self) -> (r: Result<&Integer, &Self>)
        ensures
            match r {
                Ok(i) => *self == ConstrainedValue::Integer(*i),
                Err(e) => *e == *self && !(*self is Integer),
            },
    {
        match self {
            ConstrainedValue::Integer(x) => Ok(x),
            value => Err(value),
        }
    }

    /// The elements of the array this value is, or the value itself where
    /// it is no array.
    pub fn extract_array(&self) -> (r: Result<&Vec<Self>, &Self>)
        ensures
            match r {
                Ok(items) => *self == ConstrainedValue::Array(*items),
                Err(e) => *e == *self && !(*self is Array),
            },
    {
        match self {
            ConstrainedValue::Array(x) => Ok(x),
            value => Err(value),
        }
    }

    /// The items of the tuple this value is, or the value itself where it is
    /// no tuple.
    pub fn extract_tuple(&self) -> (r: Result<&Vec<Self>, &Self>)
        ensures
            match r {
                Ok(items) => *self == ConstrainedValue::Tuple(*items),
                Err(e) => *e == *self && !(*self is Tuple),
            },
    {
        match self {
            ConstrainedValue::Tuple(x) => Ok(x),
            value => Err(value),
        }
    }

    /// Whether this value is a value of type `type_`: see `matches_type`.
    pub fn matches_input_type(&self, type_: &Type) -> (r: bool)
        ensures
            r == matches_type(*self, *type_),
        decreases self, 1int,
    {
        match self {
            ConstrainedValue::Address(_) => matches!(type_, Type::Address),
            ConstrainedValue::Boolean(_) => matches!(type_, Type::Boolean),
            ConstrainedValue::Field(_) => matches!(type_, Type::Field),
            ConstrainedValue::Char(_) => matches!(type_, Type::Char),
            ConstrainedValue::Group(_) => matches!(type_, Type::Group),
            ConstrainedValue::Integer(i) => match (i.kind, type_) {
                (IntegerType::U8, Type::U8) => true,
                (IntegerType::U16, Type::U16) => true,
                (IntegerType::U32, Type::U32) => true,
                (IntegerType::U64, Type::U64) => true,
                (IntegerType::U128, Type::U128) => true,
                (IntegerType::I8, Type::I8) => true,
                (IntegerType::I16, Type::I16) => true,
                (IntegerType::I32, Type::I32) => true,
                (IntegerType::I64, Type::I64) => true,
                (IntegerType::I128, Type::I128) => true,
                _ => false,
            },
            ConstrainedValue::Array(items) => match type_ {
                Type::Array(inner, len) => {
                    let len_ok = match len {
                        Some(l) => items.len() == *l as usize,
                        None => true,
                    };
                    if !len_ok {
                        return false;
                    }
                    let n = items.len();
                    let mut k: usize = 0;
                    while k < n
                        invariant
                            *self == ConstrainedValue::Array(*items),
                            *type_ == Type::Array(*inner, *len),
                            n == items@.len(),
                            k <= n,
                            all_match(items@, **inner, k as int),
                        decreases n - k,
                    {
                        proof {
                            let ghost v0 = *self;
                            assert(v0->Array_0 == *items);
                            assert(decreases_to!(v0 => v0->Array_0));
                            assert(decreases_to!(*items => items@));
                            assert(decreases_to!(items@ => items@[k as int]));
                        }
                        if !items[k].matches_input_type(&**inner) {
                            proof {
                                lemma_all_match(items@, **inner, n as int, k as int);
                            }
                            return false;
                        }
                        k = k + 1;
                    }
                    true
                },
                _ => false,
            },
            ConstrainedValue::Tuple(items) => match type_ {
                Type::Tuple(types) => items_match(self, items, types),
                Type::Circuit(members) => members_match(self, items, members),
                _ => false,
            },
        }
    }
}

} // verus!
