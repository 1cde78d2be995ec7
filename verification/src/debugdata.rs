use crate::circuit::{CircuitView, DebugCircuit};
use crate::entries::{
    index_of, inserted, lemma_index_of, lemma_lookup_inserted, lemma_lookup_value_update, lookup,
};
use crate::function::{DebugFunction, FunctionView};
use crate::index_map::{
    circuit_entries, circuits_new, function_entries, functions_get_mut, functions_insert, functions_new,
    instructions_insert, item_entries, items_new, variable_entries, variables_get, variables_insert,
    variables_new,
};
use crate::instruction::DebugInstruction;
use crate::variable::{plain_variable, DebugVariable, DebugVariableType, VariableView};
use indexmap::IndexMap;
use vstd::prelude::*;

verus! {

pub enum DebugItem {
    Variable(DebugVariable),
    Function(DebugFunction),
}

pub enum ItemView {
    Variable(VariableView),
    Function(FunctionView),
}

impl View for DebugItem {
    type V = ItemView;

    open spec fn view(&self) -> ItemView {
        match self {
            DebugItem::Variable(v) => ItemView::Variable(v@),
            DebugItem::Function(f) => ItemView::Function(f@),
        }
    }
}

/// All debug information of a program, and the call stack of the run that
/// is being debugged.
pub struct DebugData {
    pub data: IndexMap<u32, DebugItem>,
    pub stack: Vec<DebugFunction>,
    pub call_dept: u32,
    pub debug: bool,
    pub debug_port: u32,
    pub debug_variable: DebugVariable,
    pub functions: IndexMap<u32, DebugFunction>,
    pub variables: IndexMap<u32, DebugVariable>,
    pub circuits: IndexMap<u32, DebugCircuit>,
    pub last_circuit_id: u32,
}

/// All debug information, with each map taken as its pairs in order.
pub struct DebugDataView {
    pub data: Seq<(u32, ItemView)>,
    pub stack: Seq<FunctionView>,
    pub call_dept: u32,
    pub debug: bool,
    pub debug_port: u32,
    pub debug_variable: VariableView,
    pub functions: Seq<(u32, FunctionView)>,
    pub variables: Seq<(u32, VariableView)>,
    pub circuits: Seq<(u32, CircuitView)>,
    pub last_circuit_id: u32,
}

impl View for DebugData {
    type V = DebugDataView;

    open spec fn view(&self) -> DebugDataView {
        DebugDataView {
            data: item_entries(self.data),
            stack: stack_view(self.stack@),
            call_dept: self.call_dept,
            debug: self.debug,
            debug_port: self.debug_port,
            debug_variable: self.debug_variable@,
            functions: function_entries(self.functions),
            variables: variable_entries(self.variables),
            circuits: circuit_entries(self.circuits),
            last_circuit_id: self.last_circuit_id,
        }
    }
}

/// The port the debug server listens on when none is given.
pub const DEFAULT_DEBUG_PORT: u32 = 50001;

/// The functions of a stack, each taken by value.
pub open spec fn stack_view(stack: Seq<DebugFunction>) -> Seq<FunctionView> {
    stack.map_values(|f: DebugFunction| f@)
}

/// `a` and `b` agree on every field but the function map.
pub open spec fn same_but_functions(a: DebugData, b: DebugData) -> bool {
    &&& a.data == b.data
    &&& a.stack == b.stack
    &&& a.call_dept == b.call_dept
    &&& a.debug == b.debug
    &&& a.debug_port == b.debug_port
    &&& a.debug_variable == b.debug_variable
    &&& a.variables == b.variables
    &&& a.circuits == b.circuits
    &&& a.last_circuit_id == b.last_circuit_id
}

/// `a` and `b` agree on every field but the variable map.
pub open spec fn same_but_variables(a: DebugData, b: DebugData) -> bool {
    &&& a.data == b.data
    &&& a.stack == b.stack
    &&& a.call_dept == b.call_dept
    &&& a.debug == b.debug
    &&& a.debug_port == b.debug_port
    &&& a.debug_variable == b.debug_variable
    &&& a.functions == b.functions
    &&& a.circuits == b.circuits
    &&& a.last_circuit_id == b.last_circuit_id
}

/// The variable map after `add_variable`: a new id is added last, an id that
/// is already there keeps its variable.
pub open spec fn variables_after_add(entries: Seq<(u32, VariableView)>, id: u32, v: VariableView) -> Seq<(u32, VariableView)> {
    if lookup(entries, id) is Some {
        entries
    } else {
        entries.push((id, v))
    }
}

/// The function map after a change to the function stored under `id`, if
/// there is one.
pub open spec fn functions_after_change(
    entries: Seq<(u32, FunctionView)>,
    id: u32,
    change: spec_fn(FunctionView) -> FunctionView,
) -> Seq<(u32, FunctionView)> {
    match lookup(entries, id) {
        Some(f) => entries.update(index_of(entries, id), (id, change(f))),
        None => entries,
    }
}


/// After `add_variable(id, v)`, an id that was not recorded finds `v`, an
/// id that was recorded keeps its variable, and every other id finds what it
/// found before.
pub proof fn law_add_variable_then_lookup(entries: Seq<(u32, VariableView)>, id: u32, v: VariableView, k: u32)
    ensures
        lookup(variables_after_add(entries, id, v), k) == if k == id && lookup(entries, id) is None {
            Some(v)
        } else {
            lookup(entries, k)
        },
{
    lemma_index_of(entries, id);
    lemma_lookup_inserted(entries, id, v, k);
    if lookup(entries, id) is None {
        assert(inserted(entries, id, v) == entries.push((id, v)));
    }
}

/// After `add_function(id, f)`, `id` finds `f` and every other id finds
/// what it found before.
pub proof fn law_add_function_then_lookup(entries: Seq<(u32, FunctionView)>, id: u32, f: FunctionView, k: u32)
    ensures
        lookup(inserted(entries, id, f), k) == if k == id {
            Some(f)
        } else {
            lookup(entries, k)
        },
{
    lemma_lookup_inserted(entries, id, f, k);
}

/// A change to the function recorded under `id` (`add_variable_to_function`,
/// `insert_instruction`) is found under `id`; every other id finds what it
/// found before, and an id that was not recorded stays unrecorded.
pub proof fn law_change_function_then_lookup(
    entries: Seq<(u32, FunctionView)>,
    id: u32,
    change: spec_fn(FunctionView) -> FunctionView,
    k: u32,
)
    ensures
        lookup(functions_after_change(entries, id, change), k) == if k == id {
            match lookup(entries, id) {
                Some(f) => Some(change(f)),
                None => None,
            }
        } else {
            lookup(entries, k)
        },
{
    lemma_index_of(entries, id);
    lemma_index_of(entries, k);
    match lookup(entries, id) {
        Some(f) => {
            let i = index_of(entries, id);
            lemma_lookup_value_update(entries, i, change(f), k);
        },
        None => {},
    }
}

impl DebugData {
    pub fn new(debug: bool, debug_port: Option<u32>) -> (r: Self)
        ensures
            item_entries(r.data) == Seq::<(u32, ItemView)>::empty(),
            r.stack@ == Seq::<DebugFunction>::empty(),
            r.call_dept == 0,
            r.debug == debug,
            r.debug_port == match debug_port {
                Some(p) => p,
                None => DEFAULT_DEBUG_PORT,
            },
            plain_variable(DebugVariableType::Empty, Seq::empty(), Seq::empty(), 0, 0, 0, r.debug_variable),
            function_entries(r.functions) == Seq::<(u32, FunctionView)>::empty(),
            variable_entries(r.variables) == Seq::<(u32, VariableView)>::empty(),
            circuit_entries(r.circuits) == Seq::<(u32, CircuitView)>::empty(),
            r.last_circuit_id == u32::MAX,
    {
        let port = match debug_port {
            Some(port) => port,
            None => DEFAULT_DEBUG_PORT,
        };
        DebugData {
            data: items_new(),
            stack: Vec::new(),
            call_dept: 0,
            debug: debug,
            debug_port: port,
            debug_variable: DebugVariable::new(),
            functions: functions_new(),
            variables: variables_new(),
            circuits: circuits_new(),
            last_circuit_id: u32::MAX,
        }
    }

    /// Records a variable under `id`, unless a variable is recorded there already.
    pub fn add_variable(&mut self, id: u32, variable: DebugVariable)
        ensures
            same_but_variables(*final(self), *old(self)),
            variable_entries(final(self).variables) == variables_after_add(
                variable_entries(old(self).variables),
                id,
                variable@,
            ),
    {
        let present = match variables_get(&self.variables, id) {
            Some(_item) => true,
            None => false,
        };
        if !present {
            proof {
                lemma_index_of(variable_entries(self.variables), id);
            }
            variables_insert(&mut self.variables, id, variable);
        }
    }

    /// Records a function under `id`, replacing one recorded there.
    pub fn add_function(&mut self, id: u32, function: DebugFunction)
        ensures
            same_but_functions(*final(self), *old(self)),
            function_entries(final(self).functions) == inserted(
                function_entries(old(self).functions),
                id,
                function@,
            ),
    {
        functions_insert(&mut self.functions, id, function);
    }

    /// The function recorded under `id`, to be read or changed in place.
    pub fn get_function(&mut self, id: u32) -> (r: Option<&mut DebugFunction>)
        ensures
            same_but_functions(*final(self), *old(self)),
            r is Some <==> lookup(function_entries(old(self).functions), id) is Some,
            r is None ==> function_entries(final(self).functions) == function_entries(old(self).functions),
            r matches Some(f) ==> ({
                let i = index_of(function_entries(old(self).functions), id);
                &&& f@ == function_entries(old(self).functions)[i].1
                &&& function_entries(final(self).functions) == function_entries(
                    old(self).functions,
                ).update(i, (id, final(f)@))
            }),
    {
        functions_get_mut(&mut self.functions, id)
    }

    /// Appends `variable_id` to the variables of the function recorded under
    /// `function_id`, if there is one.
    pub fn add_variable_to_function(&mut self, function_id: u32, variable_id: u32)
        ensures
            same_but_functions(*final(self), *old(self)),
            function_entries(final(self).functions) == functions_after_change(
                function_entries(old(self).functions),
                function_id,
                |f: FunctionView| FunctionView { variables: f.variables.push(variable_id), ..f },
            ),
    {
        proof {
            lemma_index_of(function_entries(self.functions), function_id);
        }
        match functions_get_mut(&mut self.functions, function_id) {
            Some(item) => {
                item.variables.push(variable_id);
            }
            None => {}
        }
    }

    /// Stores `instruction` under `instruction_index` in the function recorded
    /// under `function_index`, if there is one.
    pub fn insert_instruction(&mut self, function_index: u32, instruction_index: u32, instruction: DebugInstruction)
        ensures
            same_but_functions(*final(self), *old(self)),
            function_entries(final(self).functions) == functions_after_change(
                function_entries(old(self).functions),
                function_index,
                |f: FunctionView| FunctionView {
                    instructions: inserted(f.instructions, instruction_index, instruction),
                    ..f
                },
            ),
    {
        proof {
            lemma_index_of(function_entries(self.functions), function_index);
        }
        match functions_get_mut(&mut self.functions, function_index) {
            Some(func) => {
                instructions_insert(&mut func.instructions, instruction_index, instruction);
            }
            None => {}
        }
    }
}


/// Any two debug data values compare equal: equality does not look into them.
impl PartialEq for DebugData {
    fn eq(&self, other: &Self) -> (r: bool) {
        true
    }
}

impl vstd::std_specs::cmp::PartialEqSpecImpl for DebugData {
    open spec fn obeys_eq_spec() -> bool {
        true
    }

    open spec fn eq_spec(&self, other: &Self) -> bool {
        true
    }
}

} // verus!
