//! How the debugger shows the value of a variable of the program: the value
//! is written into the variable recorded under its id, element by element.
use crate::debugger::{Debugger, DebuggerView};
use crate::debugdata::DebugDataView;
use crate::decimal::{bracketed, bracketed_index, decimal, u64_to_string};
use crate::entries::{index_of, keys_of, lemma_index_of, lookup};
use crate::index_map::{variables_get_mut, variables_insert};
use crate::ir::Value;
use crate::variable::{DebugVariable, DebugVariableType, VariableView};
use vstd::prelude::*;

verus! {

/// The texts of the integers among `items`, in order.
pub open spec fn integer_texts(items: Seq<Value>) -> Seq<Seq<char>>
    decreases items.len(),
{
    if items.len() == 0 {
        Seq::empty()
    } else {
        let p = integer_texts(items.drop_last());
        match items.last() {
            Value::Integer(t) => p.push(t@),
            _ => p,
        }
    }
}

/// The variable that shows element `i` of an array before its value is known.
pub open spec fn element_view(i: nat) -> VariableView {
    VariableView {
        name: bracketed(i),
        type_: DebugVariableType::Array,
        value: Seq::empty(),
        circuit_id: 0,
        mutable: false,
        is_argument: false,
        const_: false,
        line_start: 0,
        line_end: 0,
        sub_variables: Seq::empty(),
    }
}

/// `var` once it shows `v`, when `v` is an element of an array: an integer
/// sets the kind and the text, an array appends one variable per element.
pub open spec fn nested_view(v: Value, var: VariableView) -> VariableView
    decreases v, 0int,
{
    match v {
        Value::Integer(t) => VariableView { type_: DebugVariableType::Integer, value: t@, ..var },
        Value::Array(items) => {
            proof {
                assert(decreases_to!(v => items));
                assert(decreases_to!(items => items@));
            }
            VariableView { sub_variables: var.sub_variables + nested_elems(items@, items@.len() as int), ..var }
        },
        _ => var,
    }
}

/// The variables that show the first `n` elements of `items`.
pub open spec fn nested_elems(items: Seq<Value>, n: int) -> Seq<VariableView>
    decreases items, n,
{
    if n <= 0 || n > items.len() {
        Seq::empty()
    } else {
        proof {
            assert(decreases_to!(items => items[n - 1]));
        }
        nested_elems(items, n - 1).push(nested_view(items[n - 1], element_view((n - 1) as nat)))
    }
}

/// The nested variables `subs` with their texts replaced by `texts`.
pub open spec fn with_texts(subs: Seq<VariableView>, texts: Seq<Seq<char>>) -> Seq<VariableView> {
    Seq::new(subs.len(), |j: int| VariableView { value: texts[j], ..subs[j] })
}

/// The variable map with the variable under `id`, if any, changed by `f`.
pub open spec fn change_entry(
    entries: Seq<(u32, VariableView)>,
    id: u32,
    f: spec_fn(VariableView) -> VariableView,
) -> Seq<(u32, VariableView)> {
    match lookup(entries, id) {
        Some(x) => entries.update(index_of(entries, id), (id, f(x))),
        None => entries,
    }
}

/// What showing `v` as an element does to the variable map: a tuple's
/// integers become the texts of the nested variables of the variable under
/// `id`, a reference becomes its text, an array does this for each element.
pub open spec fn map_effect(entries: Seq<(u32, VariableView)>, id: u32, v: Value) -> Seq<(u32, VariableView)>
    decreases v, 0int,
{
    match v {
        Value::Tuple(items) => change_entry(entries, id,
            |x: VariableView| VariableView { sub_variables: with_texts(x.sub_variables, integer_texts(items@)), ..x }),
        Value::Ref(r) => change_entry(entries, id, |x: VariableView| VariableView { value: decimal(r as nat), ..x }),
        Value::Array(items) => {
            proof {
                assert(decreases_to!(v => items));
                assert(decreases_to!(items => items@));
            }
            map_effect_elems(entries, id, items@, items@.len() as int)
        },
        _ => entries,
    }
}

pub open spec fn map_effect_elems(entries: Seq<(u32, VariableView)>, id: u32, items: Seq<Value>, n: int) -> Seq<(u32, VariableView)>
    decreases items, n,
{
    if n <= 0 || n > items.len() {
        entries
    } else {
        proof {
            assert(decreases_to!(items => items[n - 1]));
        }
        map_effect(map_effect_elems(entries, id, items, n - 1), id, items[n - 1])
    }
}

/// Showing `v` as an element does not fail when the variable under `id` has
/// `len` nested variables: every tuple in it has at least that many integers.
pub open spec fn nested_ok(v: Value, len: nat) -> bool
    decreases v, 0int,
{
    match v {
        Value::Tuple(items) => len <= integer_texts(items@).len(),
        Value::Array(items) => {
            proof {
                assert(decreases_to!(v => items));
                assert(decreases_to!(items => items@));
            }
            elems_ok(items@, len, items@.len() as int)
        },
        _ => true,
    }
}

pub open spec fn elems_ok(items: Seq<Value>, len: nat, n: int) -> bool
    decreases items, n,
{
    if n <= 0 || n > items.len() {
        true
    } else {
        proof {
            assert(decreases_to!(items => items[n - 1]));
        }
        elems_ok(items, len, n - 1) && nested_ok(items[n - 1], len)
    }
}

/// The variable map after showing `v` in the variable under `id`.
pub open spec fn resolve_top(entries: Seq<(u32, VariableView)>, id: u32, v: Value) -> Seq<(u32, VariableView)> {
    match v {
        Value::Integer(t) => change_entry(entries, id, |x: VariableView| VariableView { value: t@, ..x }),
        Value::Array(items) => change_entry(entries, id, |x: VariableView| VariableView {
            type_: DebugVariableType::Array,
            value: array_text(),
            sub_variables: x.sub_variables + nested_elems(items@, items@.len() as int),
            ..x
        }),
        Value::Tuple(_) => map_effect(entries, id, v),
        Value::Ref(_) => map_effect(entries, id, v),
        _ => entries,
    }
}

/// Showing `v` in the variable under `id` does not fail.
pub open spec fn top_ok(entries: Seq<(u32, VariableView)>, id: u32, v: Value) -> bool {
    match lookup(entries, id) {
        Some(x) => match v {
            Value::Array(items) => elems_ok(items@, x.sub_variables.len(), items@.len() as int),
            _ => nested_ok(v, x.sub_variables.len()),
        },
        None => true,
    }
}

pub open spec fn items_of(v: Value) -> Seq<Value> {
    match v {
        Value::Array(items) => items@,
        Value::Tuple(items) => items@,
        _ => Seq::empty(),
    }
}

pub open spec fn array_text() -> Seq<char> {
    seq!['A', 'r', 'r', 'a', 'y']
}

pub open spec fn with_variables(d: DebuggerView, entries: Seq<(u32, VariableView)>) -> DebuggerView {
    DebuggerView { debug_data: DebugDataView { variables: entries, ..d.debug_data }, ..d }
}

/// Two variable maps with the same keys in the same order and the same number
/// of nested variables in each variable.
pub open spec fn same_shape(a: Seq<(u32, VariableView)>, b: Seq<(u32, VariableView)>) -> bool {
    &&& a.len() == b.len()
    &&& forall|j: int| 0 <= j < a.len() ==> #[trigger] a[j].0 == b[j].0
        && a[j].1.sub_variables.len() == b[j].1.sub_variables.len()
}

pub proof fn lemma_same_shape_lookup(a: Seq<(u32, VariableView)>, b: Seq<(u32, VariableView)>, id: u32)
    requires
        same_shape(a, b),
    ensures
        index_of(a, id) == index_of(b, id),
        lookup(a, id) is Some <==> lookup(b, id) is Some,
        lookup(a, id) is Some ==> lookup(a, id).unwrap().sub_variables.len() == lookup(b, id).unwrap().sub_variables.len(),
{
    assert(keys_of(a) =~= keys_of(b)) by {
        assert forall|j: int| 0 <= j < a.len() implies keys_of(a)[j] == keys_of(b)[j] by {
            assert(a[j].0 == b[j].0);
        }
    }
    lemma_index_of(a, id);
    lemma_index_of(b, id);
}

pub proof fn lemma_change_entry_shape(
    entries: Seq<(u32, VariableView)>,
    id: u32,
    f: spec_fn(VariableView) -> VariableView,
)
    requires
        forall|x: VariableView| #[trigger] f(x).sub_variables.len() == x.sub_variables.len(),
    ensures
        same_shape(entries, change_entry(entries, id, f)),
{
    lemma_index_of(entries, id);
}

pub proof fn lemma_map_effect_shape(entries: Seq<(u32, VariableView)>, id: u32, v: Value)
    ensures
        same_shape(entries, map_effect(entries, id, v)),
    decreases v, 0int,
{
    match v {
        Value::Tuple(items) => {
            let f = |x: VariableView| VariableView { sub_variables: with_texts(x.sub_variables, integer_texts(items@)), ..x };
            lemma_change_entry_shape(entries, id, f);
        },
        Value::Ref(r) => {
            let f = |x: VariableView| VariableView { value: decimal(r as nat), ..x };
            lemma_change_entry_shape(entries, id, f);
        },
        Value::Array(items) => {
            assert(decreases_to!(v => items));
            assert(decreases_to!(items => items@));
            lemma_map_effect_elems_shape(entries, id, items@, items@.len() as int);
        },
        _ => {},
    }
}

pub proof fn lemma_map_effect_elems_shape(entries: Seq<(u32, VariableView)>, id: u32, items: Seq<Value>, n: int)
    ensures
        same_shape(entries, map_effect_elems(entries, id, items, n)),
    decreases items, n,
{
    if n <= 0 || n > items.len() {
    } else {
        assert(decreases_to!(items => items[n - 1]));
        lemma_map_effect_elems_shape(entries, id, items, n - 1);
        let e1 = map_effect_elems(entries, id, items, n - 1);
        lemma_map_effect_shape(e1, id, items[n - 1]);
    }
}

pub proof fn lemma_elems_ok(items: Seq<Value>, len: nat, n: int, k: int)
    requires
        elems_ok(items, len, n),
        0 <= k < n <= items.len(),
    ensures
        nested_ok(items[k], len),
    decreases n,
{
    if k < n - 1 {
        lemma_elems_ok(items, len, n - 1, k);
    }
}

/// `a` and `b` have the same keys and agree everywhere but at position `i`.
pub open spec fn agree_except(a: Seq<(u32, VariableView)>, b: Seq<(u32, VariableView)>, i: int) -> bool {
    &&& a.len() == b.len()
    &&& forall|j: int| 0 <= j < a.len() ==> #[trigger] a[j].0 == b[j].0
    &&& forall|j: int| 0 <= j < a.len() && j != i ==> #[trigger] a[j] == b[j]
}

pub proof fn lemma_agree_except_index(a: Seq<(u32, VariableView)>, b: Seq<(u32, VariableView)>, i: int, id: u32)
    requires
        agree_except(a, b, i),
    ensures
        index_of(a, id) == index_of(b, id),
{
    assert(keys_of(a) =~= keys_of(b)) by {
        assert forall|j: int| 0 <= j < a.len() implies keys_of(a)[j] == keys_of(b)[j] by {
            assert(a[j].0 == b[j].0);
        }
    }
}

pub proof fn lemma_agree_except_trans(a: Seq<(u32, VariableView)>, b: Seq<(u32, VariableView)>, c: Seq<(u32, VariableView)>, i: int)
    requires
        agree_except(a, b, i),
        agree_except(b, c, i),
    ensures
        agree_except(a, c, i),
{
    assert forall|j: int| 0 <= j < a.len() implies #[trigger] a[j].0 == c[j].0 by {
        assert(a[j].0 == b[j].0);
        assert(b[j].0 == c[j].0);
    }
    assert forall|j: int| 0 <= j < a.len() && j != i implies #[trigger] a[j] == c[j] by {
        assert(a[j] == b[j]);
        assert(b[j] == c[j]);
    }
}

pub proof fn lemma_map_effect_local(entries: Seq<(u32, VariableView)>, id: u32, v: Value)
    ensures
        agree_except(entries, map_effect(entries, id, v), index_of(entries, id)),
    decreases v, 0int,
{
    lemma_index_of(entries, id);
    match v {
        Value::Array(items) => {
            assert(decreases_to!(v => items));
            assert(decreases_to!(items => items@));
            lemma_map_effect_elems_local(entries, id, items@, items@.len() as int);
        },
        _ => {},
    }
}

pub proof fn lemma_map_effect_elems_local(entries: Seq<(u32, VariableView)>, id: u32, items: Seq<Value>, n: int)
    ensures
        agree_except(entries, map_effect_elems(entries, id, items, n), index_of(entries, id)),
    decreases items, n,
{
    if n <= 0 || n > items.len() {
    } else {
        assert(decreases_to!(items => items[n - 1]));
        lemma_map_effect_elems_local(entries, id, items, n - 1);
        let e1 = map_effect_elems(entries, id, items, n - 1);
        lemma_map_effect_local(e1, id, items[n - 1]);
        lemma_agree_except_index(entries, e1, index_of(entries, id), id);
    }
}


proof fn lemma_change_entry_local(entries: Seq<(u32, VariableView)>, id: u32, f: spec_fn(VariableView) -> VariableView)
    ensures
        agree_except(entries, change_entry(entries, id, f), index_of(entries, id)),
{
    lemma_index_of(entries, id);
}

/// Showing a value in the variable under `id` (`resolve_debug_variable`)
/// keeps every id of the variable map at its place and leaves every other
/// variable as it was.
pub proof fn law_resolve_touches_one_variable(entries: Seq<(u32, VariableView)>, id: u32, v: Value)
    ensures
        agree_except(entries, resolve_top(entries, id, v), index_of(entries, id)),
{
    match v {
        Value::Integer(t) => {
            lemma_change_entry_local(entries, id, |x: VariableView| VariableView { value: t@, ..x });
        },
        Value::Array(items) => {
            lemma_change_entry_local(
                entries,
                id,
                |x: VariableView| VariableView {
                    type_: DebugVariableType::Array,
                    value: array_text(),
                    sub_variables: x.sub_variables + nested_elems(items@, items@.len() as int),
                    ..x
                },
            );
        },
        Value::Tuple(_) => {
            lemma_map_effect_local(entries, id, v);
        },
        Value::Ref(_) => {
            lemma_map_effect_local(entries, id, v);
        },
        _ => {
            lemma_index_of(entries, id);
        },
    }
}

pub proof fn lemma_nested_ok_zero(v: Value)
    ensures
        nested_ok(v, 0),
    decreases v, 0int,
{
    match v {
        Value::Array(items) => {
            assert(decreases_to!(v => items));
            assert(decreases_to!(items => items@));
            lemma_elems_ok_zero(items@, items@.len() as int);
        },
        _ => {},
    }
}

pub proof fn lemma_elems_ok_zero(items: Seq<Value>, n: int)
    ensures
        elems_ok(items, 0, n),
    decreases items, n,
{
    if n <= 0 || n > items.len() {
    } else {
        assert(decreases_to!(items => items[n - 1]));
        lemma_elems_ok_zero(items, n - 1);
        lemma_nested_ok_zero(items[n - 1]);
    }
}

/// The texts of the integers among `items`, in order.
pub fn integer_texts_of(items: &Vec<Value>) -> (r: Vec<String>)
    ensures
        r@.map_values(|s: String| s@) == integer_texts(items@),
{
    let mut r: Vec<String> = Vec::new();
    let n = items.len();
    for i in 0..n
        invariant
            n == items@.len(),
            r@.map_values(|s: String| s@) == integer_texts(items@.take(i as int)),
    {
        proof {
            assert(items@.take(i + 1).drop_last() =~= items@.take(i as int));
            assert(items@.take(i + 1).last() == items@[i as int]);
        }
        let ghost r0 = r@;
        match &items[i] {
            Value::Integer(t) => {
                r.push(t.clone());
                assert(r@.map_values(|s: String| s@) =~= r0.map_values(|s: String| s@).push(t@));
            }
            _ => {}
        }
    }
    assert(items@.take(n as int) =~= items@);
    r
}

impl Debugger {
    /// Replaces the texts of the nested variables of the variable under
    /// `var_id` by `values`, in order.
    fn write_sub_variable_values(&mut self, var_id: u32, values: &Vec<String>)
        requires
            lookup(old(self)@.debug_data.variables, var_id) matches Some(x) ==> x.sub_variables.len() <= values@.len(),
        ensures
            final(self)@ == with_variables(old(self)@, change_entry(old(self)@.debug_data.variables, var_id,
                |x: VariableView| VariableView { sub_variables: with_texts(x.sub_variables, values@.map_values(|s: String| s@)), ..x })),
    {
        proof {
            lemma_index_of(self@.debug_data.variables, var_id);
        }
        let ghost texts = values@.map_values(|s: String| s@);
        match variables_get_mut(&mut self.debug_data.variables, var_id) {
            Some(variable) => {
                let ghost old_subs = variable@.sub_variables;
                let mut rest: Vec<DebugVariable> = Vec::new();
                std::mem::swap(&mut rest, &mut variable.sub_variables);
                let ghost all = rest@;
                assert(crate::variable::variables_view(all) == old_subs);
                proof {
                    crate::variable::lemma_variables_view_len(all);
                    lemma_index_of(old(self)@.debug_data.variables, var_id);
                }
                let n = rest.len();
                assert(crate::variable::variables_view(Seq::<DebugVariable>::empty()) =~= Seq::<VariableView>::empty());
                let mut done: Vec<DebugVariable> = Vec::new();
                for j in 0..n
                    invariant
                        n == all.len(),
                        n <= values@.len(),
                        texts == values@.map_values(|s: String| s@),
                        rest@ == all.subrange(j as int, n as int),
                        crate::variable::variables_view(all).len() == n,
                        done@.len() == j,
                        crate::variable::variables_view(done@) == with_texts(crate::variable::variables_view(all), texts).take(j as int),
                {
                    assert(rest@[0] == all[j as int]);
                    let mut sub = rest.remove(0);
                    sub.value = values[j].clone();
                    let ghost d0 = done@;
                    done.push(sub);
                    proof {
                        assert(done@.drop_last() =~= d0);
                        let w = with_texts(crate::variable::variables_view(all), texts);
                        assert(w.take(j + 1).drop_last() =~= w.take(j as int));
                        assert(rest@ =~= all.subrange(j + 1, n as int));
                        crate::variable::lemma_variables_view_index(all, j as int);
                        assert(sub@ == VariableView { value: texts[j as int], ..crate::variable::variable_view(all[j as int]) });
                        assert(crate::variable::variables_view(done@) == crate::variable::variables_view(d0).push(sub@));
                        assert(crate::variable::variables_view(done@) =~= w.take(j + 1));
                    }
                }
                proof {
                    let w = with_texts(crate::variable::variables_view(all), texts);
                    assert(w.take(n as int) =~= w);
                }
                variable.sub_variables = done;
            }
            None => {}
        }
    }

    /// In debug mode, replaces the texts of the nested variables of the
    /// variable under `var_id` by `values`, in order.
    pub fn set_sub_variable_values(&mut self, var_id: u32, values: Vec<String>)
        requires
            old(self).is_debug_mode ==> (lookup(old(self)@.debug_data.variables, var_id) matches Some(x)
                ==> x.sub_variables.len() <= values@.len()),
        ensures
            final(self)@ == if old(self).is_debug_mode {
                with_variables(old(self)@, change_entry(old(self)@.debug_data.variables, var_id,
                    |x: VariableView| VariableView { sub_variables: with_texts(x.sub_variables, values@.map_values(|s: String| s@)), ..x }))
            } else {
                old(self)@
            },
    {
        if !self.is_debug_mode {
            return;
        }
        self.write_sub_variable_values(var_id, &values);
    }

    /// Replaces the text of the variable under `var_id` by `text`.
    fn write_variable_value(&mut self, var_id: u32, text: String)
        ensures
            final(self)@ == with_variables(old(self)@, change_entry(old(self)@.debug_data.variables, var_id,
                |x: VariableView| VariableView { value: text@, ..x })),
    {
        proof {
            lemma_index_of(self@.debug_data.variables, var_id);
        }
        match variables_get_mut(&mut self.debug_data.variables, var_id) {
            Some(variable) => {
                variable.value = text;
            }
            None => {}
        }
    }

    /// Shows `value` in `variable`, an element of the variable under
    /// `var_id`: see `nested_view` for what it does to `variable` and
    /// `map_effect` for what it does to the variable under `var_id`.
    pub fn resolve_variable_into(&mut self, var_id: u32, value: &Value, variable: &mut DebugVariable)
        requires
            old(self).is_debug_mode ==> (lookup(old(self)@.debug_data.variables, var_id) matches Some(x)
                ==> nested_ok(*value, x.sub_variables.len())),
        ensures
            final(self)@ == if old(self).is_debug_mode {
                with_variables(old(self)@, map_effect(old(self)@.debug_data.variables, var_id, *value))
            } else {
                old(self)@
            },
            final(variable)@ == if old(self).is_debug_mode {
                nested_view(*value, old(variable)@)
            } else {
                old(variable)@
            },
        decreases value,
    {
        if !self.is_debug_mode {
            return;
        }
        let ghost e0 = self@.debug_data.variables;
        match value {
            Value::Integer(t) => {
                variable.type_ = DebugVariableType::Integer;
                variable.value = t.clone();
            }
            Value::Array(items) => {
                let ghost var0 = variable@;
                let n = items.len();
                proof {
                    lemma_index_of(e0, var_id);
                }
                for index in 0..n
                    invariant
                        n == items@.len(),
                        *value == Value::Array(*items),
                        self.is_debug_mode,
                        lookup(e0, var_id) matches Some(x) ==> elems_ok(items@, x.sub_variables.len(), n as int),
                        self@ == with_variables(old(self)@, map_effect_elems(e0, var_id, items@, index as int)),
                        variable@ == (VariableView {
                            sub_variables: var0.sub_variables + nested_elems(items@, index as int),
                            ..var0
                        }),
                        e0 == old(self)@.debug_data.variables,
                        var0 == old(variable)@,
                {
                    let mut element = DebugVariable::new_some_variable(
                        DebugVariableType::Array,
                        bracketed_index(index as u64),
                        String::new(),
                        0,
                        0,
                    );
                    proof {
                        lemma_map_effect_elems_shape(e0, var_id, items@, index as int);
                        lemma_same_shape_lookup(e0, map_effect_elems(e0, var_id, items@, index as int), var_id);
                        if lookup(e0, var_id) is Some {
                            lemma_elems_ok(items@, lookup(e0, var_id).unwrap().sub_variables.len(), n as int, index as int);
                        }
                        assert(element@ == element_view(index as nat));
                        let ghost v0 = *value;
                        assert(v0->Array_0 == *items);
                        assert(decreases_to!(v0 => v0->Array_0));
                        assert(decreases_to!(*items => items@));
                        assert(decreases_to!(items@ => items@[index as int]));
                    }
                    self.resolve_variable_into(var_id, &items[index], &mut element);
                    let ghost subs0 = variable.sub_variables@;
                    let ghost ev = element@;
                    variable.sub_variables.push(element);
                    proof {
                        assert(variable.sub_variables@.drop_last() =~= subs0);
                        assert(crate::variable::variables_view(variable.sub_variables@)
                            == crate::variable::variables_view(subs0).push(ev));
                        assert(var0.sub_variables + nested_elems(items@, index + 1) =~=
                            (var0.sub_variables + nested_elems(items@, index as int)).push(ev));
                    }
                }
            }
            Value::Tuple(items) => {
                let values = integer_texts_of(items);
                proof {
                    lemma_index_of(e0, var_id);
                }
                self.write_sub_variable_values(var_id, &values);
                proof {
                    assert(change_entry(e0, var_id, |x: VariableView| VariableView {
                        sub_variables: with_texts(x.sub_variables, values@.map_values(|s: String| s@)),
                        ..x
                    }) == map_effect(e0, var_id, *value));
                }
            }
            Value::Ref(r) => {
                let text = u64_to_string(*r as u64);
                self.write_variable_value(var_id, text);
                proof {
                    lemma_index_of(e0, var_id);
                    assert(change_entry(e0, var_id, |x: VariableView| VariableView { value: text@, ..x })
                        == map_effect(e0, var_id, *value));
                }
            }
            _ => {}
        }
    }

    /// In debug mode, shows `value` in `variable` where one is given (see
    /// `resolve_variable_into`), else in the variable recorded under
    /// `var_id` (see `resolve_debug_variable`).
    pub fn resolve_variable(&mut self, var_id: u32, value: &Value, variable: Option<&mut DebugVariable>)
        requires
            old(self).is_debug_mode && variable is None ==> top_ok(old(self)@.debug_data.variables, var_id, *value),
            old(self).is_debug_mode && variable is Some ==> (lookup(old(self)@.debug_data.variables, var_id) matches Some(x)
                ==> nested_ok(*value, x.sub_variables.len())),
        ensures
            variable is None ==> final(self)@ == if old(self).is_debug_mode {
                with_variables(old(self)@, resolve_top(old(self)@.debug_data.variables, var_id, *value))
            } else {
                old(self)@
            },
            variable matches Some(v) ==> {
                &&& final(self)@ == if old(self).is_debug_mode {
                    with_variables(old(self)@, map_effect(old(self)@.debug_data.variables, var_id, *value))
                } else {
                    old(self)@
                }
                &&& final(v)@ == if old(self).is_debug_mode {
                    nested_view(*value, v@)
                } else {
                    v@
                }
            },
    {
        match variable {
            Some(v) => self.resolve_variable_into(var_id, value, v),
            None => self.resolve_debug_variable(var_id, value),
        }
    }

    /// In debug mode, shows `value` in the variable recorded under `var_id`:
    /// see `resolve_top`.
    pub fn resolve_debug_variable(&mut self, var_id: u32, value: &Value)
        requires
            old(self).is_debug_mode ==> top_ok(old(self)@.debug_data.variables, var_id, *value),
        ensures
            final(self)@ == if old(self).is_debug_mode {
                with_variables(old(self)@, resolve_top(old(self)@.debug_data.variables, var_id, *value))
            } else {
                old(self)@
            },
    {
        if !self.is_debug_mode {
            return;
        }
        let ghost e0 = self@.debug_data.variables;
        proof {
            lemma_index_of(e0, var_id);
        }
        match value {
            Value::Integer(t) => {
                let text = t.clone();
                self.write_variable_value(var_id, text);
                proof {
                    assert(change_entry(e0, var_id, |x: VariableView| VariableView { value: text@, ..x })
                        == resolve_top(e0, var_id, *value));
                }
            }
            Value::Array(_) => {
                let ghost i = index_of(e0, var_id);
                let taken = match variables_get_mut(&mut self.debug_data.variables, var_id) {
                    Some(entry) => {
                        let mut placeholder = DebugVariable::new();
                        std::mem::swap(entry, &mut placeholder);
                        Some(placeholder)
                    }
                    None => None,
                };
                match taken {
                    Some(mut variable) => {
                        assert(lookup(e0, var_id) is Some);
                        assert(variable@ == e0[i].1);
                        assert(self@.debug_data.variables == e0.update(i, (var_id, crate::variable::plain_view(DebugVariableType::Empty, Seq::empty(), Seq::empty(), 0, 0, 0))));
                        let ghost e1 = self@.debug_data.variables;
                        proof {
                            reveal_strlit("Array");
                        }
                        variable.type_ = DebugVariableType::Array;
                        variable.value = String::from_str("Array");
                        assert(variable.value@ =~= array_text());
                        proof {
                            lemma_index_of(e1, var_id);
                            lemma_agree_except_index(e0, e1, i, var_id);
                            lemma_nested_ok_zero(*value);
                        }
                        self.resolve_variable_into(var_id, value, &mut variable);
                        let ghost e2 = self@.debug_data.variables;
                        proof {
                            lemma_map_effect_local(e1, var_id, *value);
                            lemma_agree_except_index(e1, e2, i, var_id);
                            lemma_index_of(e2, var_id);
                        }
                        variables_insert(&mut self.debug_data.variables, var_id, variable);
                        proof {
                            assert(index_of(e2, var_id) == i);
                            assert(agree_except(e0, e1, i));
                            assert(agree_except(e1, e2, i));
                            lemma_agree_except_trans(e0, e1, e2, i);
                            assert(variable@.sub_variables == e0[i].1.sub_variables + nested_elems(items_of(*value), items_of(*value).len() as int));
                            assert(self@.debug_data.variables =~= resolve_top(e0, var_id, *value));
                        }
                    }
                    None => {}
                }
            }
            Value::Tuple(_) | Value::Ref(_) => {
                let mut unused = DebugVariable::new();
                self.resolve_variable_into(var_id, value, &mut unused);
            }
            _ => {}
        }
    }
}

} // verus!
