use crate::entries::lookup;
use crate::index_map::{instruction_entries, instructions_clone, instructions_new, variable_entries, variables_get};
use crate::instruction::DebugInstruction;
use crate::variable::{DebugVariable, VariableView};
use indexmap::IndexMap;
use vstd::prelude::*;

verus! {

/// A function of the program: where it is, the variables and arguments it
/// declares (by id), its instructions by index and the line it stands at.
pub struct DebugFunction {
    pub name: String,
    pub file_path: String,
    pub self_circuit_id: u32,
    pub variables: Vec<u32>,
    pub instructions: IndexMap<u32, DebugInstruction>,
    pub arguments: Vec<u32>,
    pub current_line: u32,
    pub line_start: u32,
    pub line_end: u32,
}

/// A function with its strings, lists and instruction map taken by value.
pub struct FunctionView {
    pub name: Seq<char>,
    pub file_path: Seq<char>,
    pub self_circuit_id: u32,
    pub variables: Seq<u32>,
    pub instructions: Seq<(u32, DebugInstruction)>,
    pub arguments: Seq<u32>,
    pub current_line: u32,
    pub line_start: u32,
    pub line_end: u32,
}

impl View for DebugFunction {
    type V = FunctionView;

    open spec fn view(&self) -> FunctionView {
        FunctionView {
            name: self.name@,
            file_path: self.file_path@,
            self_circuit_id: self.self_circuit_id,
            variables: self.variables@,
            instructions: instruction_entries(self.instructions),
            arguments: self.arguments@,
            current_line: self.current_line,
            line_start: self.line_start,
            line_end: self.line_end,
        }
    }
}

/// How many of the variable ids in `ids` name a variable of `vars` whose
/// `is_argument` flag equals `is_argument`.
pub open spec fn count_variables(ids: Seq<u32>, vars: Seq<(u32, VariableView)>, is_argument: bool) -> nat
    decreases ids.len(),
{
    if ids.len() == 0 {
        0
    } else {
        count_variables(ids.drop_last(), vars, is_argument) + match lookup(vars, ids.last()) {
            Some(v) => if v.is_argument == is_argument { 1nat } else { 0nat },
            None => 0nat,
        }
    }
}

/// Counting over a prefix of the ids counts no more than over all of them.
pub proof fn lemma_count_variables_prefix(ids: Seq<u32>, vars: Seq<(u32, VariableView)>, is_argument: bool, k: int)
    requires
        0 <= k <= ids.len(),
    ensures
        count_variables(ids.take(k), vars, is_argument) <= count_variables(ids, vars, is_argument),
    decreases ids.len(),
{
    if k < ids.len() {
        lemma_count_variables_prefix(ids.drop_last(), vars, is_argument, k);
        assert(ids.drop_last().take(k) =~= ids.take(k));
    } else {
        assert(ids.take(k) =~= ids);
    }
}

/// How many of the ids in `ids` name a variable of `vars`.
pub open spec fn count_found(ids: Seq<u32>, vars: Seq<(u32, VariableView)>) -> nat
    decreases ids.len(),
{
    if ids.len() == 0 {
        0
    } else {
        count_found(ids.drop_last(), vars) + if lookup(vars, ids.last()) is Some {
            1nat
        } else {
            0nat
        }
    }
}

/// Each declared variable that the map holds is counted once: as an
/// argument or as a local variable.
pub proof fn law_counts_add_up(ids: Seq<u32>, vars: Seq<(u32, VariableView)>)
    ensures
        count_variables(ids, vars, true) + count_variables(ids, vars, false) == count_found(ids, vars),
        count_found(ids, vars) <= ids.len(),
    decreases ids.len(),
{
    if ids.len() > 0 {
        law_counts_add_up(ids.drop_last(), vars);
    }
}

impl DebugFunction {
    pub fn new() -> (r: Self)
        ensures
            r@ == (FunctionView {
                name: Seq::empty(),
                file_path: Seq::empty(),
                self_circuit_id: 0,
                variables: Seq::empty(),
                instructions: Seq::empty(),
                arguments: Seq::empty(),
                current_line: 0,
                line_start: 0,
                line_end: 0,
            }),
    {
        DebugFunction {
            name: String::new(),
            file_path: String::new(),
            self_circuit_id: 0,
            variables: Vec::new(),
            instructions: instructions_new(),
            arguments: Vec::new(),
            current_line: 0,
            line_start: 0,
            line_end: 0,
        }
    }

    pub fn add_variable(&mut self, id: u32)
        ensures
            final(self)@ == (FunctionView { variables: old(self)@.variables.push(id), ..old(self)@ }),
    {
        self.variables.push(id);
    }

    /// Counts the declared variables that `variables` holds and whose
    /// `is_argument` flag is `is_argument`.
    pub fn get_variables_count(&self, is_argument: bool, variables: &IndexMap<u32, DebugVariable>) -> (r: u32)
        requires
            count_variables(self.variables@, variable_entries(*variables), is_argument) <= u32::MAX,
        ensures
            r == count_variables(self.variables@, variable_entries(*variables), is_argument),
    {
        let ghost vars = variable_entries(*variables);
        let mut count: u32 = 0;
        let n = self.variables.len();
        for i in 0..n
            invariant
                n == self.variables@.len(),
                vars == variable_entries(*variables),
                count_variables(self.variables@, vars, is_argument) <= u32::MAX,
                count == count_variables(self.variables@.take(i as int), vars, is_argument),
        {
            let ghost prefix = self.variables@.take(i as int);
            proof {
                lemma_count_variables_prefix(self.variables@, vars, is_argument, i + 1);
                assert(self.variables@.take(i + 1).drop_last() =~= prefix);
            }
            let id = self.variables[i];
            match variables_get(variables, id) {
                Some(variable) => {
                    if is_argument == variable.is_argument {
                        count += 1;
                    }
                }
                None => {}
            }
        }
        assert(self.variables@.take(n as int) =~= self.variables@);
        count
    }
}

impl Clone for DebugFunction {
    fn clone(&self) -> (r: Self)
        ensures
            r@ == self@,
    {
        let variables = self.variables.clone();
        let arguments = self.arguments.clone();
        assert(variables@ =~= self.variables@);
        assert(arguments@ =~= self.arguments@);
        DebugFunction {
            name: self.name.clone(),
            file_path: self.file_path.clone(),
            self_circuit_id: self.self_circuit_id,
            variables,
            instructions: instructions_clone(&self.instructions),
            arguments,
            current_line: self.current_line,
            line_start: self.line_start,
            line_end: self.line_end,
        }
    }
}


/// Any two debug functions compare equal: equality does not look into them.
impl PartialEq for DebugFunction {
    fn eq(&self, other: &Self) -> (r: bool) {
        true
    }
}

impl vstd::std_specs::cmp::PartialEqSpecImpl for DebugFunction {
    open spec fn obeys_eq_spec() -> bool {
        true
    }

    open spec fn eq_spec(&self, other: &Self) -> bool {
        true
    }
}

} // verus!
