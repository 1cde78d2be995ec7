use snarkvm_debug::circuit::DebugCircuit;
use snarkvm_debug::debugdata::{DebugData, DEFAULT_DEBUG_PORT};
use snarkvm_debug::function::DebugFunction;
use snarkvm_debug::instruction::DebugInstruction;
use snarkvm_debug::variable::{DebugSomeType, DebugVariable, DebugVariableType};

fn variable(name: &str, value: &str, is_argument: bool) -> DebugVariable {
    let mut v = DebugVariable::new_some_variable(DebugVariableType::Integer, name.to_string(), value.to_string(), 3, 4);
    v.is_argument = is_argument;
    v
}

#[test]
fn new_debug_data_uses_default_port() {
    let d = DebugData::new(true, None);
    assert_eq!(d.debug_port, DEFAULT_DEBUG_PORT);
    assert_eq!(d.debug_port, 50001);
    assert!(d.debug);
    assert_eq!(d.call_dept, 0);
    assert_eq!(d.last_circuit_id, u32::MAX);
    assert!(d.stack.is_empty());
    assert!(d.variables.is_empty());
    assert!(d.functions.is_empty());
    assert!(d.circuits.is_empty());
    assert!(d.data.is_empty());
    assert_eq!(d.debug_variable.name, "");
}

#[test]
fn new_debug_data_uses_given_port() {
    let d = DebugData::new(false, Some(4711));
    assert_eq!(d.debug_port, 4711);
    assert!(!d.debug);
}

#[test]
fn add_variable_keeps_the_first_variable() {
    let mut d = DebugData::new(true, None);
    d.add_variable(7, variable("a", "1", false));
    d.add_variable(9, variable("b", "2", false));
    d.add_variable(7, variable("c", "3", false));
    assert_eq!(d.variables.len(), 2);
    assert_eq!(d.variables.get(&7).unwrap().name, "a");
    assert_eq!(d.variables.get(&9).unwrap().name, "b");
    let keys: Vec<u32> = d.variables.keys().cloned().collect();
    assert_eq!(keys, vec![7, 9]);
}

#[test]
fn add_function_replaces_and_keeps_place() {
    let mut d = DebugData::new(true, None);
    let mut f = DebugFunction::new();
    f.name = "main".to_string();
    d.add_function(1, f);
    let mut g = DebugFunction::new();
    g.name = "helper".to_string();
    d.add_function(2, g);
    let mut h = DebugFunction::new();
    h.name = "main2".to_string();
    d.add_function(1, h);
    let names: Vec<String> = d.functions.values().map(|f| f.name.clone()).collect();
    assert_eq!(names, vec!["main2".to_string(), "helper".to_string()]);
}

#[test]
fn get_function_changes_in_place() {
    let mut d = DebugData::new(true, None);
    d.add_function(1, DebugFunction::new());
    match d.get_function(1) {
        Some(f) => f.current_line = 42,
        None => panic!("function 1 is recorded"),
    }
    assert_eq!(d.functions.get(&1).unwrap().current_line, 42);
    assert!(d.get_function(2).is_none());
}

#[test]
fn add_variable_to_function_appends() {
    let mut d = DebugData::new(true, None);
    d.add_function(1, DebugFunction::new());
    d.add_variable_to_function(1, 10);
    d.add_variable_to_function(1, 11);
    d.add_variable_to_function(5, 12);
    assert_eq!(d.functions.get(&1).unwrap().variables, vec![10, 11]);
    assert_eq!(d.functions.len(), 1);
}

#[test]
fn insert_instruction_then_lookup() {
    let mut d = DebugData::new(true, None);
    d.add_function(1, DebugFunction::new());
    d.insert_instruction(1, 0, DebugInstruction { self_var_id: 3, line_start: 10, line_end: 11 });
    d.insert_instruction(1, 1, DebugInstruction { self_var_id: 4, line_start: 12, line_end: 13 });
    d.insert_instruction(1, 0, DebugInstruction { self_var_id: 5, line_start: 14, line_end: 15 });
    d.insert_instruction(2, 0, DebugInstruction { self_var_id: 6, line_start: 16, line_end: 17 });
    let f = d.functions.get(&1).unwrap();
    assert_eq!(f.instructions.len(), 2);
    assert_eq!(f.instructions.get(&0).unwrap().line_start, 14);
    assert_eq!(f.instructions.get(&1).unwrap().self_var_id, 4);
    assert!(d.functions.get(&2).is_none());
}

#[test]
fn variables_count_by_argument_flag() {
    let mut d = DebugData::new(true, None);
    d.add_variable(1, variable("a", "", true));
    d.add_variable(2, variable("b", "", false));
    d.add_variable(3, variable("c", "", false));
    let mut f = DebugFunction::new();
    f.add_variable(1);
    f.add_variable(2);
    f.add_variable(3);
    f.add_variable(99);
    assert_eq!(f.get_variables_count(true, &d.variables), 1);
    assert_eq!(f.get_variables_count(false, &d.variables), 2);
}

#[test]
fn counts_add_up_to_the_recorded_ids() {
    let mut d = DebugData::new(true, None);
    d.add_variable(1, variable("a", "", true));
    d.add_variable(2, variable("b", "", false));
    let mut f = DebugFunction::new();
    for id in [1, 2, 2, 5, 1] {
        f.add_variable(id);
    }
    let found = f.variables.iter().filter(|id| d.variables.contains_key(*id)).count() as u32;
    assert_eq!(f.get_variables_count(true, &d.variables) + f.get_variables_count(false, &d.variables), found);
    assert_eq!(found, 4);
}

#[test]
fn variable_constructors() {
    let v = DebugVariable::new();
    assert_eq!(v.name, "");
    assert!(matches!(v.type_, DebugVariableType::Empty));
    assert!(v.sub_variables.is_empty());
    let s = DebugVariable::new_some_variable(DebugVariableType::Boolean, "flag".to_string(), "true".to_string(), 5, 6);
    assert_eq!(s.name, "flag");
    assert_eq!(s.value, "true");
    assert_eq!((s.line_start, s.line_end, s.circuit_id), (5, 6, 0));
    assert!(!s.mutable && !s.is_argument && !s.const_);
    let c = DebugVariable::new_circuit("p".to_string(), "Point".to_string(), 8, 1, 2);
    assert!(matches!(c.type_, DebugVariableType::Circuit));
    assert_eq!(c.circuit_id, 8);
    assert_eq!(c.value, "Point");
}

#[test]
fn equality_does_not_look_inside() {
    assert!(variable("a", "1", false) == variable("b", "2", true));
    assert!(DebugSomeType { value: "x".to_string() } == DebugSomeType { value: "y".to_string() });
    assert!(DebugData::new(true, None) == DebugData::new(false, Some(1)));
    let c1 = DebugCircuit { name: "A".to_string(), members: vec![1], functions: vec![], line_start: 1, line_end: 2 };
    let c2 = DebugCircuit { name: "B".to_string(), members: vec![], functions: vec![3], line_start: 5, line_end: 9 };
    assert!(c1 == c2);
    let i1 = DebugInstruction { self_var_id: 1, line_start: 1, line_end: 1 };
    let i2 = DebugInstruction { self_var_id: 2, line_start: 2, line_end: 2 };
    assert!(i1 == i2);
    assert!(DebugFunction::new() == DebugFunction::new());
}

#[test]
fn cloned_function_keeps_its_instructions() {
    let mut f = DebugFunction::new();
    f.name = "f".to_string();
    f.add_variable(4);
    let mut d = DebugData::new(true, None);
    d.add_function(1, f);
    d.insert_instruction(1, 7, DebugInstruction { self_var_id: 1, line_start: 20, line_end: 21 });
    let g = d.functions.get(&1).unwrap().clone();
    assert_eq!(g.name, "f");
    assert_eq!(g.variables, vec![4]);
    assert_eq!(g.instructions.get(&7).unwrap().line_start, 20);
}
