use snarkvm_debug::debugdata::DebugData;
use snarkvm_debug::debugger::{Breakpoint, DebugEvent, Debugger, Directive, EvalStage};
use snarkvm_debug::function::DebugFunction;
use snarkvm_debug::instruction::DebugInstruction;
use snarkvm_debug::ir::Value;
use snarkvm_debug::variable::{DebugVariable, DebugVariableType};

fn program(debug: bool) -> DebugData {
    let mut d = DebugData::new(debug, None);
    let mut f = DebugFunction::new();
    f.name = "main".to_string();
    f.file_path = "main.leo".to_string();
    f.line_start = 1;
    f.line_end = 10;
    d.add_function(1, f);
    let mut g = DebugFunction::new();
    g.name = "inner".to_string();
    g.file_path = "main.leo".to_string();
    g.line_start = 20;
    g.line_end = 30;
    d.add_function(2, g);
    d.insert_instruction(1, 0, DebugInstruction { self_var_id: 0, line_start: 3, line_end: 3 });
    d.insert_instruction(1, 1, DebugInstruction { self_var_id: 0, line_start: 5, line_end: 6 });
    d
}

fn no_directive() -> Directive {
    Directive { event: None, wait: false }
}

fn same(a: Directive, b: Directive) -> bool {
    a == b
}

/// A debugger in debug mode with `main` on the stack.
fn running() -> Debugger {
    let mut dbg = Debugger::new(program(true));
    dbg.add_to_stack(1);
    dbg
}

#[test]
fn new_debugger_starts_at_depth_one() {
    let dbg = Debugger::new(program(true));
    assert!(dbg.is_debug_mode);
    assert_eq!(dbg.cur_stack_frame_id, 200);
    assert_eq!(dbg.cur_variables_reference_id, 300);
    assert_eq!(dbg.cur_function_id, 0);
    assert_eq!(dbg.get_debug_call_depth(), 1);
    assert_eq!(dbg.get_program_call_depth(), 1);
    assert!(dbg.breakpoints.is_empty());
    assert!(dbg.wait_for_next_step());
    assert!(!Debugger::new(program(false)).wait_for_next_step());
}

#[test]
fn add_to_stack_pushes_the_function_at_its_first_line() {
    let dbg = running();
    assert_eq!(dbg.debug_data.stack.len(), 1);
    assert_eq!(dbg.debug_data.stack[0].name, "main");
    assert_eq!(dbg.debug_data.stack[0].current_line, 1);
    assert_eq!(dbg.debug_data.call_dept, 1);
}

#[test]
fn add_to_stack_needs_a_deeper_call() {
    let mut dbg = running();
    dbg.add_to_stack(2);
    assert_eq!(dbg.debug_data.stack.len(), 1);
    dbg.set_debug_call_depth(2);
    dbg.add_to_stack(77);
    assert_eq!(dbg.debug_data.stack.len(), 1);
}

#[test]
fn nothing_changes_outside_debug_mode() {
    let mut dbg = Debugger::new(program(false));
    dbg.add_to_stack(1);
    dbg.set_debug_call_depth(5);
    dbg.set_program_call_depth(5);
    dbg.update_position(9, 9);
    assert!(dbg.debug_data.stack.is_empty());
    assert_eq!(dbg.get_debug_call_depth(), 1);
    assert_eq!(dbg.get_program_call_depth(), 1);
    assert_eq!(dbg.send_stack_frame(), None);
    assert_eq!(dbg.send_next_step_response(), None);
    assert_eq!(dbg.send_breakpoint_hit_response(), None);
}

#[test]
fn update_position_moves_the_top_frame() {
    let mut dbg = running();
    dbg.update_position(7, 8);
    assert_eq!(dbg.debug_data.stack[0].current_line, 7);
    assert_eq!(dbg.debug_data.stack[0].line_end, 8);
}

#[test]
fn set_self_reference_only_for_circuits() {
    let mut dbg = running();
    dbg.debug_data.add_variable(40, DebugVariable::new_circuit("p".to_string(), "Point".to_string(), 1, 0, 0));
    dbg.debug_data.add_variable(41, DebugVariable::new_some_variable(DebugVariableType::Integer, "x".to_string(), "".to_string(), 0, 0));
    dbg.set_self_reference(41);
    assert_eq!(dbg.debug_data.stack[0].self_circuit_id, 0);
    dbg.set_self_reference(40);
    assert_eq!(dbg.debug_data.stack[0].self_circuit_id, 40);
    dbg.set_self_reference(99);
    assert_eq!(dbg.debug_data.stack[0].self_circuit_id, 40);
}

#[test]
fn push_then_pop_restores_the_stack() {
    let mut dbg = running();
    dbg.set_program_call_depth(2);
    dbg.set_debug_call_depth(2);
    dbg.add_to_stack(2);
    assert_eq!(dbg.debug_data.stack.len(), 2);
    assert_eq!(dbg.debug_data.stack[1].current_line, 20);
    dbg.pop_stack(2);
    assert_eq!(dbg.debug_data.stack.len(), 1);
    assert_eq!(dbg.debug_data.stack[0].name, "main");
    assert_eq!(dbg.get_debug_call_depth(), 1);
    assert_eq!(dbg.get_program_call_depth(), 1);
}

#[test]
fn pop_stack_never_goes_below_depth_one() {
    let mut dbg = running();
    dbg.pop_stack(1);
    assert_eq!(dbg.get_program_call_depth(), 1);
    assert_eq!(dbg.debug_data.stack.len(), 1);
}

#[test]
fn step_out_pops_and_waits() {
    let mut dbg = running();
    dbg.set_program_call_depth(2);
    dbg.set_debug_call_depth(2);
    dbg.add_to_stack(2);
    dbg.is_step_out = true;
    let d = dbg.step_out();
    assert!(same(d, Directive { event: Some(DebugEvent::NextStep), wait: true }));
    assert!(!dbg.is_step_out);
    assert_eq!(dbg.debug_data.stack.len(), 1);
    let again = dbg.step_out();
    assert!(same(again, no_directive()));
}

#[test]
fn breakpoint_hit_response_clears_the_flag() {
    let mut dbg = running();
    dbg.is_breakpoint_hit = true;
    assert_eq!(dbg.send_breakpoint_hit_response(), Some(DebugEvent::BreakpointHit));
    assert!(!dbg.is_breakpoint_hit);
    assert_eq!(dbg.send_stack_frame(), Some(DebugEvent::Stack));
}

#[test]
fn clear_all_breakpoints_keeps_other_files() {
    let mut dbg = running();
    dbg.add_breakpoint("a.leo".to_string(), 3);
    dbg.add_breakpoint("b.leo".to_string(), 4);
    dbg.add_breakpoint("a.leo".to_string(), 5);
    dbg.add_breakpoint("c.leo".to_string(), 6);
    dbg.clear_all_breakpoints(&"a.leo".to_string());
    let left: Vec<(String, u32)> = dbg.breakpoints.iter().map(|b: &Breakpoint| (b.file_path.clone(), b.line)).collect();
    assert_eq!(left, vec![("b.leo".to_string(), 4), ("c.leo".to_string(), 6)]);
}

#[test]
fn breakpoint_position_finds_the_first_match() {
    let mut dbg = running();
    dbg.add_breakpoint("x".to_string(), 3);
    dbg.add_breakpoint("y".to_string(), 5);
    dbg.add_breakpoint("z".to_string(), 5);
    let paths = vec!["/a".to_string(), "/b".to_string(), "/b".to_string()];
    assert_eq!(dbg.breakpoint_position(&"/b".to_string(), &paths, 5), Some(1));
    assert_eq!(dbg.breakpoint_position(&"/a".to_string(), &paths, 5), None);
    assert_eq!(dbg.breakpoint_position(&"/a".to_string(), &paths, 3), Some(0));
}

#[test]
fn evaluate_instruction_steps_line_by_line() {
    let mut dbg = running();
    let file = "/main.leo".to_string();
    let paths: Vec<String> = Vec::new();
    let (stage, d) = dbg.evaluate_instruction(1, 0, EvalStage::Start, &file, &paths);
    assert!(stage == EvalStage::AfterInstruction);
    assert!(same(d, Directive { event: Some(DebugEvent::NextStep), wait: true }));
    assert_eq!(dbg.debug_data.stack[0].current_line, 3);
    let (stage, d) = dbg.evaluate_instruction(1, 0, stage, &file, &paths);
    assert!(stage == EvalStage::Finished);
    assert!(same(d, no_directive()));
    let (stage, _) = dbg.evaluate_instruction(1, 1, EvalStage::Start, &file, &paths);
    assert!(stage == EvalStage::AfterInstruction);
    assert_eq!(dbg.debug_data.stack[0].current_line, 5);
    assert_eq!(dbg.debug_data.stack[0].line_end, 6);
}

#[test]
fn evaluate_instruction_runs_to_a_breakpoint() {
    let mut dbg = running();
    dbg.add_breakpoint("main.leo".to_string(), 5);
    dbg.is_breakpoint_hit = true;
    let file = "/main.leo".to_string();
    let paths = vec!["/main.leo".to_string()];
    let (stage, d) = dbg.evaluate_instruction(1, 0, EvalStage::Start, &file, &paths);
    assert!(stage == EvalStage::Finished);
    assert!(same(d, no_directive()));
    assert_eq!(dbg.debug_data.stack[0].current_line, 1);
    let (stage, d) = dbg.evaluate_instruction(1, 1, EvalStage::Start, &file, &paths);
    assert!(stage == EvalStage::AfterInstruction);
    assert!(same(d, Directive { event: Some(DebugEvent::BreakpointHit), wait: true }));
    assert_eq!(dbg.debug_data.stack[0].current_line, 5);
    assert!(!dbg.is_breakpoint_hit);
}

#[test]
fn evaluate_instruction_steps_into_a_call() {
    let mut dbg = running();
    dbg.is_step_into = true;
    dbg.is_call_instruction = true;
    let file = "/main.leo".to_string();
    let paths: Vec<String> = Vec::new();
    let (stage, d) = dbg.evaluate_instruction(1, 1, EvalStage::Start, &file, &paths);
    assert!(stage == EvalStage::AfterStepInto);
    assert!(same(d, Directive { event: Some(DebugEvent::NextStep), wait: true }));
    assert_eq!(dbg.debug_data.stack[0].current_line, 1);
    let (stage, d) = dbg.evaluate_instruction(1, 1, stage, &file, &paths);
    assert!(stage == EvalStage::Continue);
    assert!(same(d, no_directive()));
    let (stage, _) = dbg.evaluate_instruction(1, 1, stage, &file, &paths);
    assert!(stage == EvalStage::AfterInstruction);
    assert!(!dbg.is_step_into && !dbg.is_call_instruction);
    assert_eq!(dbg.debug_data.stack[0].current_line, 5);
}

#[test]
fn evaluate_instruction_quiet_outside_debug_mode() {
    let mut dbg = Debugger::new(program(false));
    let file = "/main.leo".to_string();
    let paths: Vec<String> = Vec::new();
    for stage in [EvalStage::Start, EvalStage::AfterStepInto, EvalStage::Continue, EvalStage::AfterInstruction, EvalStage::Finished] {
        let (_, d) = dbg.evaluate_instruction(1, 0, stage, &file, &paths);
        assert!(same(d, no_directive()));
    }
}

#[test]
fn evaluate_instruction_stops_at_the_last_index() {
    let mut dbg = running();
    let file = "/main.leo".to_string();
    let paths: Vec<String> = Vec::new();
    let (stage, d) = dbg.evaluate_instruction(1, u32::MAX, EvalStage::Start, &file, &paths);
    assert!(stage == EvalStage::Finished);
    assert!(same(d, no_directive()));
    let (stage, _) = dbg.evaluate_instruction(1, 9, EvalStage::Start, &file, &paths);
    assert!(stage == EvalStage::Finished);
    let (stage, _) = dbg.evaluate_instruction(3, 0, EvalStage::Start, &file, &paths);
    assert!(stage == EvalStage::Finished);
}

#[test]
fn evaluate_instruction_waits_for_matching_depths() {
    let mut dbg = running();
    dbg.set_debug_call_depth(2);
    let file = "/main.leo".to_string();
    let paths: Vec<String> = Vec::new();
    let (stage, d) = dbg.evaluate_instruction(1, 0, EvalStage::Start, &file, &paths);
    assert!(stage == EvalStage::Finished);
    assert!(same(d, no_directive()));
}

fn with_variable(id: u32, subs: usize) -> Debugger {
    let mut dbg = running();
    let mut v = DebugVariable::new_some_variable(DebugVariableType::Tuple, "t".to_string(), "".to_string(), 0, 0);
    for k in 0..subs {
        v.sub_variables.push(DebugVariable::new_some_variable(DebugVariableType::Integer, format!("{}", k), "".to_string(), 0, 0));
    }
    dbg.debug_data.add_variable(id, v);
    dbg
}

#[test]
fn resolve_integer_sets_the_text() {
    let mut dbg = with_variable(5, 0);
    dbg.resolve_debug_variable(5, &Value::Integer("42u8".to_string()));
    assert_eq!(dbg.debug_data.variables.get(&5).unwrap().value, "42u8");
    dbg.resolve_debug_variable(6, &Value::Integer("1".to_string()));
    assert_eq!(dbg.debug_data.variables.len(), 1);
}

#[test]
fn resolve_array_appends_elements() {
    let mut dbg = with_variable(5, 0);
    let v = Value::Array(vec![Value::Integer("1".to_string()), Value::Integer("2".to_string())]);
    dbg.resolve_debug_variable(5, &v);
    let var = dbg.debug_data.variables.get(&5).unwrap();
    assert!(matches!(var.type_, DebugVariableType::Array));
    assert_eq!(var.value, "Array");
    assert_eq!(var.sub_variables.len(), 2);
    assert_eq!(var.sub_variables[0].name, "[0]");
    assert_eq!(var.sub_variables[1].name, "[1]");
    assert_eq!(var.sub_variables[1].value, "2");
    assert!(matches!(var.sub_variables[1].type_, DebugVariableType::Integer));
}

#[test]
fn resolve_nested_array() {
    let mut dbg = with_variable(5, 0);
    let inner = Value::Array(vec![Value::Integer("7".to_string())]);
    let v = Value::Array(vec![inner, Value::Boolean(true)]);
    dbg.resolve_debug_variable(5, &v);
    let var = dbg.debug_data.variables.get(&5).unwrap();
    assert_eq!(var.sub_variables.len(), 2);
    assert_eq!(var.sub_variables[0].sub_variables.len(), 1);
    assert_eq!(var.sub_variables[0].sub_variables[0].name, "[0]");
    assert_eq!(var.sub_variables[0].sub_variables[0].value, "7");
    assert_eq!(var.sub_variables[1].value, "");
}

#[test]
fn resolve_tuple_fills_the_members() {
    let mut dbg = with_variable(5, 2);
    let v = Value::Tuple(vec![Value::Integer("3".to_string()), Value::Boolean(false), Value::Integer("4".to_string())]);
    dbg.resolve_debug_variable(5, &v);
    let var = dbg.debug_data.variables.get(&5).unwrap();
    assert_eq!(var.sub_variables[0].value, "3");
    assert_eq!(var.sub_variables[1].value, "4");
    assert_eq!(var.sub_variables[1].name, "1");
}

#[test]
fn resolve_reference_shows_the_id() {
    let mut dbg = with_variable(5, 0);
    dbg.resolve_debug_variable(5, &Value::Ref(1234));
    assert_eq!(dbg.debug_data.variables.get(&5).unwrap().value, "1234");
}

#[test]
fn resolve_touches_only_its_variable() {
    let mut dbg = with_variable(5, 0);
    dbg.debug_data.add_variable(6, DebugVariable::new_some_variable(DebugVariableType::Integer, "y".to_string(), "old".to_string(), 0, 0));
    dbg.resolve_debug_variable(5, &Value::Integer("9".to_string()));
    let keys: Vec<u32> = dbg.debug_data.variables.keys().cloned().collect();
    assert_eq!(keys, vec![5, 6]);
    assert_eq!(dbg.debug_data.variables.get(&6).unwrap().value, "old");
}

#[test]
fn resolve_does_nothing_outside_debug_mode() {
    let mut dbg = Debugger::new(program(false));
    dbg.debug_data.add_variable(5, DebugVariable::new());
    dbg.resolve_debug_variable(5, &Value::Integer("9".to_string()));
    assert_eq!(dbg.debug_data.variables.get(&5).unwrap().value, "");
}

#[test]
fn resolve_into_a_given_variable() {
    let mut dbg = with_variable(5, 0);
    let mut element = DebugVariable::new();
    dbg.resolve_variable(5, &Value::Integer("11".to_string()), Some(&mut element));
    assert_eq!(element.value, "11");
    assert!(matches!(element.type_, DebugVariableType::Integer));
    assert_eq!(dbg.debug_data.variables.get(&5).unwrap().value, "");
    let mut other = DebugVariable::new();
    dbg.resolve_variable_into(5, &Value::Array(vec![Value::Integer("1".to_string())]), &mut other);
    assert_eq!(other.sub_variables.len(), 1);
    assert_eq!(other.sub_variables[0].name, "[0]");
    dbg.resolve_variable(5, &Value::Ref(8), None);
    assert_eq!(dbg.debug_data.variables.get(&5).unwrap().value, "8");
}

#[test]
fn set_sub_variable_values_in_order() {
    let mut dbg = with_variable(5, 2);
    dbg.set_sub_variable_values(5, vec!["a".to_string(), "b".to_string(), "c".to_string()]);
    let var = dbg.debug_data.variables.get(&5).unwrap();
    assert_eq!(var.sub_variables[0].value, "a");
    assert_eq!(var.sub_variables[1].value, "b");
}
