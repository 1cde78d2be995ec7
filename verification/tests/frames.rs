use snarkvm_debug::debugdata::DebugData;
use snarkvm_debug::frames::{breakpoint_lines, generate_variables, stack_frames, type_string, VariableBatch};
use snarkvm_debug::function::DebugFunction;
use snarkvm_debug::instruction::DebugInstruction;
use snarkvm_debug::variable::{DebugVariable, DebugVariableType};

fn var(name: &str, value: &str) -> DebugVariable {
    DebugVariable::new_some_variable(DebugVariableType::Integer, name.to_string(), value.to_string(), 0, 0)
}

fn snapshot() -> DebugData {
    let mut d = DebugData::new(true, None);
    d.add_variable(1, var("a", "5"));
    let mut arr = var("arr", "Array");
    let mut first = var("[0]", "");
    first.sub_variables.push(var("x", "1"));
    arr.sub_variables.push(first);
    arr.sub_variables.push(var("[1]", "2"));
    d.add_variable(2, arr);
    let mut n = var("n", "9");
    n.is_argument = true;
    d.add_variable(3, n);
    let mut f = DebugFunction::new();
    f.name = "main".to_string();
    f.file_path = "main.leo".to_string();
    f.current_line = 12;
    for id in [1, 2, 3, 42] {
        f.add_variable(id);
    }
    d.stack.push(f);
    d
}

fn batch_refs(batches: &[VariableBatch]) -> Vec<u32> {
    batches.iter().map(|b| b.variables_reference).collect()
}

#[test]
fn lays_out_one_frame() {
    let d = snapshot();
    let layout = stack_frames(&d, 200, 300).unwrap();
    assert_eq!(layout.frames.len(), 1);
    let frame = &layout.frames[0];
    assert_eq!(frame.id, 200);
    assert_eq!(frame.name, "main");
    assert_eq!(frame.file_path, "main.leo");
    assert_eq!(frame.line, 12);
    assert_eq!(frame.column, 1);
    assert_eq!(frame.scopes.len(), 2);
    assert_eq!(frame.scopes[0].name, "Variables");
    assert_eq!(frame.scopes[0].presentation_hint, "locals");
    assert_eq!(frame.scopes[0].variables_reference, 300);
    assert_eq!(frame.scopes[1].name, "Arguments");
    assert_eq!(frame.scopes[1].presentation_hint, "arguments");
    assert_eq!(frame.scopes[1].variables_reference, 303);
    assert_eq!(batch_refs(&layout.batches), vec![302, 301, 300, 303]);
    assert_eq!(layout.next_reference, 304);
}

#[test]
fn batches_hold_the_entries() {
    let d = snapshot();
    let layout = stack_frames(&d, 200, 300).unwrap();
    let innermost = &layout.batches[0];
    assert_eq!(innermost.variables.len(), 1);
    assert_eq!(innermost.variables[0].name, "x");
    assert_eq!(innermost.variables[0].value, "1");
    let elements = &layout.batches[1];
    assert_eq!(elements.variables[0].variables_reference, 302);
    assert_eq!(elements.variables[1].variables_reference, 0);
    let locals = &layout.batches[2];
    let names: Vec<&str> = locals.variables.iter().map(|e| e.name.as_str()).collect();
    assert_eq!(names, vec!["a", "arr"]);
    assert_eq!(locals.variables[0].value, "5");
    assert_eq!(locals.variables[0].type_, "u32");
    assert_eq!(locals.variables[1].variables_reference, 301);
    let arguments = &layout.batches[3];
    assert_eq!(arguments.variables.len(), 1);
    assert_eq!(arguments.variables[0].name, "n");
}

#[test]
fn references_are_all_different() {
    let mut d = snapshot();
    let second = d.stack[0].clone();
    d.stack.push(second);
    let layout = stack_frames(&d, 7, 1).unwrap();
    let mut refs = batch_refs(&layout.batches);
    assert_eq!(layout.frames[1].id, 8);
    assert_eq!(layout.frames[1].scopes[0].variables_reference, 5);
    refs.sort();
    let before = refs.len();
    refs.dedup();
    assert_eq!(refs.len(), before);
    assert!(refs.iter().all(|r| *r >= 1 && *r < layout.next_reference));
    assert_eq!(layout.next_reference, 9);
}

#[test]
fn circuit_functions_show_self() {
    let mut d = snapshot();
    let mut circuit = DebugVariable::new_circuit("p".to_string(), "Point".to_string(), 1, 0, 0);
    circuit.sub_variables.push(var("x", "3"));
    d.add_variable(4, circuit);
    d.stack[0].self_circuit_id = 4;
    let layout = stack_frames(&d, 200, 300).unwrap();
    let locals = layout.batches.iter().find(|b| b.variables_reference == 300).unwrap();
    let last = locals.variables.last().unwrap();
    assert_eq!(last.name, "self");
    assert_eq!(last.value, "Circuit");
    assert_eq!(last.variables_reference, 303);
    let members = layout.batches.iter().find(|b| b.variables_reference == 303).unwrap();
    assert_eq!(members.variables[0].name, "x");
    assert_eq!(layout.frames[0].scopes[1].variables_reference, 304);
}

#[test]
fn self_without_recorded_circuit_has_no_members() {
    let mut d = snapshot();
    d.stack[0].self_circuit_id = 77;
    let mut batches: Vec<VariableBatch> = Vec::new();
    let next = generate_variables(&d.variables, &d.stack[0], false, 10, &mut batches).unwrap();
    assert_eq!(next, 12);
    let top = batches.last().unwrap();
    assert_eq!(top.variables_reference, 10);
    assert_eq!(top.variables.len(), 3);
    assert_eq!(top.variables[2].name, "self");
    assert_eq!(top.variables[2].variables_reference, 0);
}

#[test]
fn scope_size_matches_the_count() {
    let d = snapshot();
    let f = &d.stack[0];
    let mut batches: Vec<VariableBatch> = Vec::new();
    generate_variables(&d.variables, f, true, 50, &mut batches).unwrap();
    assert_eq!(batches.last().unwrap().variables.len() as u32, f.get_variables_count(true, &d.variables));
    let mut batches: Vec<VariableBatch> = Vec::new();
    generate_variables(&d.variables, f, false, 50, &mut batches).unwrap();
    assert_eq!(batches.last().unwrap().variables.len() as u32, f.get_variables_count(false, &d.variables));
}

#[test]
fn functions_without_arguments_have_one_scope() {
    let mut d = DebugData::new(true, None);
    d.add_variable(1, var("a", "1"));
    let mut f = DebugFunction::new();
    f.add_variable(1);
    d.stack.push(f);
    let layout = stack_frames(&d, 0, 0).unwrap();
    assert_eq!(layout.frames[0].scopes.len(), 1);
    assert_eq!(batch_refs(&layout.batches), vec![0]);
    assert_eq!(layout.next_reference, 1);
}

#[test]
fn empty_stack_takes_no_reference() {
    let d = DebugData::new(true, None);
    let layout = stack_frames(&d, 200, 300).unwrap();
    assert!(layout.frames.is_empty());
    assert!(layout.batches.is_empty());
    assert_eq!(layout.next_reference, 300);
}

#[test]
fn references_past_32_bits_are_refused() {
    let d = snapshot();
    assert!(stack_frames(&d, 200, u32::MAX - 2).is_none());
    assert!(stack_frames(&d, 200, u32::MAX - 4).is_some());
    assert!(stack_frames(&d, u32::MAX, 0).is_none());
    assert!(stack_frames(&d, u32::MAX - 1, 0).is_some());
}

#[test]
fn breakpoint_lines_of_all_functions() {
    let mut d = DebugData::new(true, None);
    d.add_function(5, DebugFunction::new());
    d.add_function(1, DebugFunction::new());
    d.insert_instruction(5, 0, DebugInstruction { self_var_id: 0, line_start: 30, line_end: 30 });
    d.insert_instruction(5, 1, DebugInstruction { self_var_id: 0, line_start: 31, line_end: 32 });
    d.insert_instruction(1, 0, DebugInstruction { self_var_id: 0, line_start: 4, line_end: 4 });
    assert_eq!(breakpoint_lines(&d), vec![30, 31, 4]);
    assert!(breakpoint_lines(&DebugData::new(true, None)).is_empty());
}

#[test]
fn every_variable_is_shown_as_u32() {
    assert_eq!(type_string(), "u32");
}

#[test]
fn references_name_earlier_batches() {
    let mut d = snapshot();
    let mut circuit = DebugVariable::new_circuit("p".to_string(), "Point".to_string(), 1, 0, 0);
    circuit.sub_variables.push(var("x", "3"));
    d.add_variable(4, circuit);
    d.stack[0].self_circuit_id = 4;
    let second = d.stack[0].clone();
    d.stack.push(second);
    let layout = stack_frames(&d, 1, 1).unwrap();
    for (i, batch) in layout.batches.iter().enumerate() {
        for entry in &batch.variables {
            if entry.variables_reference != 0 {
                assert!(layout.batches[..i].iter().any(|b| b.variables_reference == entry.variables_reference));
            }
        }
    }
    for frame in &layout.frames {
        for scope in &frame.scopes {
            assert!(layout.batches.iter().any(|b| b.variables_reference == scope.variables_reference));
        }
    }
}
