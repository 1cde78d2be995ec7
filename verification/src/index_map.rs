//! The insertion-ordered maps of the `indexmap` crate that the debug data is
//! kept in, declared to Verus, with one name for the contents of each map type
//! and the map operations that the library calls.
use crate::circuit::{CircuitView, DebugCircuit};
use crate::debugdata::{DebugItem, ItemView};
use crate::entries::{index_of, inserted, lookup};
use crate::function::{DebugFunction, FunctionView};
use crate::instruction::DebugInstruction;
use crate::variable::{DebugVariable, VariableView};
use indexmap::IndexMap;
use vstd::prelude::*;

verus! {

#[verifier::external_type_specification]
#[verifier::external_body]
#[verifier::reject_recursive_types(K)]
#[verifier::reject_recursive_types(V)]
#[verifier::reject_recursive_types(S)]
pub struct ExIndexMap<K, V, S>(IndexMap<K, V, S>);

/// The pairs of a map of debug items, in insertion order.
pub uninterp spec fn item_entries(m: IndexMap<u32, DebugItem>) -> Seq<(u32, ItemView)>;

/// The pairs of a map of circuits, in insertion order.
pub uninterp spec fn circuit_entries(m: IndexMap<u32, DebugCircuit>) -> Seq<(u32, CircuitView)>;

/// The pairs of a map of functions, in insertion order.
pub uninterp spec fn function_entries(m: IndexMap<u32, DebugFunction>) -> Seq<(u32, FunctionView)>;

/// The pairs of a map of variables, in insertion order.
pub uninterp spec fn variable_entries(m: IndexMap<u32, DebugVariable>) -> Seq<(u32, VariableView)>;

/// The pairs of a map of instructions, in insertion order.
pub uninterp spec fn instruction_entries(m: IndexMap<u32, DebugInstruction>) -> Seq<(u32, DebugInstruction)>;

/// `IndexMap::new`: a map with no pairs.
#[verifier::external_body]
pub fn items_new() -> (m: IndexMap<u32, DebugItem>)
    ensures
        item_entries(m) == Seq::<(u32, ItemView)>::empty(),
{
    IndexMap::new()
}

/// `IndexMap::new`: a map with no pairs.
#[verifier::external_body]
pub fn circuits_new() -> (m: IndexMap<u32, DebugCircuit>)
    ensures
        circuit_entries(m) == Seq::<(u32, CircuitView)>::empty(),
{
    IndexMap::new()
}

/// `IndexMap::new`: a map with no pairs.
#[verifier::external_body]
pub fn functions_new() -> (m: IndexMap<u32, DebugFunction>)
    ensures
        function_entries(m) == Seq::<(u32, FunctionView)>::empty(),
{
    IndexMap::new()
}

/// `IndexMap::new`: a map with no pairs.
#[verifier::external_body]
pub fn variables_new() -> (m: IndexMap<u32, DebugVariable>)
    ensures
        variable_entries(m) == Seq::<(u32, VariableView)>::empty(),
{
    IndexMap::new()
}

/// `IndexMap::new`: a map with no pairs.
#[verifier::external_body]
pub fn instructions_new() -> (m: IndexMap<u32, DebugInstruction>)
    ensures
        instruction_entries(m) == Seq::<(u32, DebugInstruction)>::empty(),
{
    IndexMap::new()
}

/// `IndexMap::insert`: a key that is present keeps its place and takes the
/// new value; a new key is added last.
#[verifier::external_body]
pub fn functions_insert(m: &mut IndexMap<u32, DebugFunction>, k: u32, v: DebugFunction)
    ensures
        function_entries(*final(m)) == inserted(function_entries(*old(m)), k, v@),
{
    m.insert(k, v);
}

/// `IndexMap::insert`: a key that is present keeps its place and takes the
/// new value; a new key is added last.
#[verifier::external_body]
pub fn variables_insert(m: &mut IndexMap<u32, DebugVariable>, k: u32, v: DebugVariable)
    ensures
        variable_entries(*final(m)) == inserted(variable_entries(*old(m)), k, v@),
{
    m.insert(k, v);
}

/// `IndexMap::insert`: a key that is present keeps its place and takes the
/// new value; a new key is added last.
#[verifier::external_body]
pub fn instructions_insert(m: &mut IndexMap<u32, DebugInstruction>, k: u32, v: DebugInstruction)
    ensures
        instruction_entries(*final(m)) == inserted(instruction_entries(*old(m)), k, v),
{
    m.insert(k, v);
}

/// `IndexMap::get`: the value stored under the key, if any.
#[verifier::external_body]
pub fn functions_get(m: &IndexMap<u32, DebugFunction>, k: u32) -> (r: Option<&DebugFunction>)
    ensures
        r is Some <==> lookup(function_entries(*m), k) is Some,
        r matches Some(f) ==> f@ == lookup(function_entries(*m), k).unwrap(),
{
    m.get(&k)
}

/// `IndexMap::get`: the value stored under the key, if any.
#[verifier::external_body]
pub fn variables_get(m: &IndexMap<u32, DebugVariable>, k: u32) -> (r: Option<&DebugVariable>)
    ensures
        r is Some <==> lookup(variable_entries(*m), k) is Some,
        r matches Some(v) ==> v@ == lookup(variable_entries(*m), k).unwrap(),
{
    m.get(&k)
}

/// `IndexMap::get`: the value stored under the key, if any.
#[verifier::external_body]
pub fn instructions_get(m: &IndexMap<u32, DebugInstruction>, k: u32) -> (r: Option<&DebugInstruction>)
    ensures
        r is Some <==> lookup(instruction_entries(*m), k) is Some,
        r matches Some(v) ==> *v == lookup(instruction_entries(*m), k).unwrap(),
{
    m.get(&k)
}

/// `IndexMap::get_mut`: a reference to the value stored under the key; what
/// is written through it becomes the value at that place in the map.
#[verifier::external_body]
pub fn functions_get_mut(m: &mut IndexMap<u32, DebugFunction>, k: u32) -> (r: Option<&mut DebugFunction>)
    ensures
        r is Some <==> lookup(function_entries(*old(m)), k) is Some,
        r is None ==> function_entries(*final(m)) == function_entries(*old(m)),
        r matches Some(f) ==> ({
            let i = index_of(function_entries(*old(m)), k);
            &&& f@ == function_entries(*old(m))[i].1
            &&& function_entries(*final(m)) == function_entries(*old(m)).update(i, (k, final(f)@))
        }),
{
    m.get_mut(&k)
}

/// `IndexMap::get_mut`: a reference to the value stored under the key; what
/// is written through it becomes the value at that place in the map.
#[verifier::external_body]
pub fn variables_get_mut(m: &mut IndexMap<u32, DebugVariable>, k: u32) -> (r: Option<&mut DebugVariable>)
    ensures
        r is Some <==> lookup(variable_entries(*old(m)), k) is Some,
        r is None ==> variable_entries(*final(m)) == variable_entries(*old(m)),
        r matches Some(v) ==> ({
            let i = index_of(variable_entries(*old(m)), k);
            &&& v@ == variable_entries(*old(m))[i].1
            &&& variable_entries(*final(m)) == variable_entries(*old(m)).update(i, (k, final(v)@))
        }),
{
    m.get_mut(&k)
}

/// `IndexMap::len`: the number of pairs.
#[verifier::external_body]
pub fn functions_len(m: &IndexMap<u32, DebugFunction>) -> (r: usize)
    ensures
        r == function_entries(*m).len(),
{
    m.len()
}

/// `IndexMap::len`: the number of pairs.
#[verifier::external_body]
pub fn instructions_len(m: &IndexMap<u32, DebugInstruction>) -> (r: usize)
    ensures
        r == instruction_entries(*m).len(),
{
    m.len()
}

/// `IndexMap::get_index`: the pair at a position of the insertion order.
#[verifier::external_body]
pub fn functions_get_index(m: &IndexMap<u32, DebugFunction>, i: usize) -> (r: Option<(&u32, &DebugFunction)>)
    ensures
        r is Some <==> i < function_entries(*m).len(),
        r matches Some(p) ==> *p.0 == function_entries(*m)[i as int].0
            && p.1@ == function_entries(*m)[i as int].1,
{
    m.get_index(i)
}

/// `IndexMap::get_index`: the pair at a position of the insertion order.
#[verifier::external_body]
pub fn instructions_get_index(m: &IndexMap<u32, DebugInstruction>, i: usize) -> (r: Option<(&u32, &DebugInstruction)>)
    ensures
        r is Some <==> i < instruction_entries(*m).len(),
        r matches Some(p) ==> *p.0 == instruction_entries(*m)[i as int].0
            && *p.1 == instruction_entries(*m)[i as int].1,
{
    m.get_index(i)
}

/// `IndexMap::clone`: a map with the same pairs in the same order; each
/// instruction is copied by `DebugInstruction::clone`, which keeps its fields.
#[verifier::external_body]
pub fn instructions_clone(m: &IndexMap<u32, DebugInstruction>) -> (r: IndexMap<u32, DebugInstruction>)
    ensures
        instruction_entries(r) == instruction_entries(*m),
{
    m.clone()
}

} // verus!
