use snarkvm_debug::debugdata::DebugData;
use snarkvm_debug::debugger::Debugger;
use snarkvm_debug::ir::Type;
use snarkvm_debug::value::{
    Address, Boolean, Char, ConstrainedValue, FieldType, GroupValue, Integer, IntegerType,
};
use snarkvm_debug::variable::{DebugVariable, DebugVariableType};

fn integer(kind: IntegerType, text: &str) -> ConstrainedValue {
    ConstrainedValue::Integer(Integer { kind, text: text.to_string() })
}

fn boolean(b: bool) -> ConstrainedValue {
    ConstrainedValue::Boolean(Boolean { value: Some(b) })
}

fn debugger_with(id: u32, var: DebugVariable) -> Debugger {
    let mut d = DebugData::new(true, None);
    d.add_variable(id, var);
    Debugger::new(d)
}

fn plain(name: &str) -> DebugVariable {
    DebugVariable::new_some_variable(DebugVariableType::Empty, name.to_string(), "".to_string(), 0, 0)
}

#[test]
fn shows_scalars() {
    let mut dbg = debugger_with(1, plain("v"));
    let mut b = boolean(true);
    b.resolve_debug_value(&mut dbg, 1);
    let v = dbg.debug_data.variables.get(&1).unwrap();
    assert!(matches!(v.type_, DebugVariableType::Boolean));
    assert_eq!(v.value, "true");

    let mut f = ConstrainedValue::Field(FieldType { value: Some("123field".to_string()), debug_text: "Constant(123)".to_string() });
    f.resolve_debug_value(&mut dbg, 1);
    let v = dbg.debug_data.variables.get(&1).unwrap();
    assert!(matches!(v.type_, DebugVariableType::Field));
    assert_eq!(v.value, "123field");

    let mut c = ConstrainedValue::Char(Char { text: "'a'".to_string() });
    c.resolve_debug_value(&mut dbg, 1);
    assert_eq!(dbg.debug_data.variables.get(&1).unwrap().value, "'a'");

    let mut i = integer(IntegerType::U8, "7");
    i.resolve_debug_value(&mut dbg, 1);
    let v = dbg.debug_data.variables.get(&1).unwrap();
    assert!(matches!(v.type_, DebugVariableType::Integer));
    assert_eq!(v.value, "7");

    let mut a = ConstrainedValue::Address(Address { text: "aleo1xyz".to_string() });
    a.resolve_debug_value(&mut dbg, 1);
    assert_eq!(dbg.debug_data.variables.get(&1).unwrap().value, "7");

    let mut f = boolean(false);
    f.resolve_debug_value(&mut dbg, 1);
    assert_eq!(dbg.debug_data.variables.get(&1).unwrap().value, "false");
}

#[test]
fn shows_group_coordinates() {
    let mut dbg = debugger_with(1, plain("g"));
    let mut g = ConstrainedValue::Group(GroupValue {
        debug_values: vec!["x: 1".to_string(), "y: 2".to_string()],
        text: "(1, 2)group".to_string(),
        debug_text: "Constant((1, 2))".to_string(),
    });
    g.resolve_debug_value(&mut dbg, 1);
    let v = dbg.debug_data.variables.get(&1).unwrap();
    assert!(matches!(v.type_, DebugVariableType::Group));
    assert_eq!(v.value, "Group");
    assert_eq!(v.sub_variables.len(), 2);
    assert_eq!(v.sub_variables[0].name, "x: 1");
    assert_eq!(v.sub_variables[1].name, "y: 2");
    assert!(matches!(v.sub_variables[1].type_, DebugVariableType::Group));

    let mut dbg = debugger_with(1, plain("g"));
    let mut g = ConstrainedValue::Group(GroupValue { debug_values: vec![], text: "0group".to_string(), debug_text: String::new() });
    g.resolve_debug_value(&mut dbg, 1);
    let v = dbg.debug_data.variables.get(&1).unwrap();
    assert_eq!(v.value, "0group");
    assert!(v.sub_variables.is_empty());
}

#[test]
fn shows_new_array_elements() {
    let mut dbg = debugger_with(1, plain("arr"));
    let mut a = ConstrainedValue::Array(vec![integer(IntegerType::U32, "1"), integer(IntegerType::U32, "2")]);
    a.resolve_debug_value(&mut dbg, 1);
    let v = dbg.debug_data.variables.get(&1).unwrap();
    assert!(matches!(v.type_, DebugVariableType::Array));
    assert_eq!(v.value, "Array");
    assert_eq!(v.sub_variables.len(), 2);
    assert_eq!(v.sub_variables[0].name, "[0]");
    assert_eq!(v.sub_variables[1].name, "[1]");
    assert_eq!(v.sub_variables[1].value, "2");
}

#[test]
fn reuses_array_elements_of_the_same_length() {
    let mut var = plain("arr");
    let mut first = plain("first");
    first.circuit_id = 9;
    var.sub_variables.push(first);
    var.sub_variables.push(plain("second"));
    let mut dbg = debugger_with(1, var);
    let mut a = ConstrainedValue::Array(vec![boolean(true), boolean(false)]);
    a.resolve_debug_value(&mut dbg, 1);
    let v = dbg.debug_data.variables.get(&1).unwrap();
    assert_eq!(v.sub_variables.len(), 2);
    assert_eq!(v.sub_variables[0].name, "[0]");
    assert_eq!(v.sub_variables[0].circuit_id, 9);
    assert_eq!(v.sub_variables[0].value, "true");
    assert_eq!(v.sub_variables[1].value, "false");
}

#[test]
fn array_of_another_length_is_not_shown() {
    let mut var = plain("arr");
    var.sub_variables.push(plain("only"));
    let mut dbg = debugger_with(1, var);
    let mut a = ConstrainedValue::Array(vec![boolean(true), boolean(false)]);
    a.resolve_debug_value(&mut dbg, 1);
    let v = dbg.debug_data.variables.get(&1).unwrap();
    assert_eq!(v.value, "");
    assert_eq!(v.sub_variables.len(), 1);
    assert_eq!(v.sub_variables[0].name, "only");
}

#[test]
fn shows_tuple_items() {
    let mut var = plain("t");
    var.sub_variables.push(plain("x"));
    let mut dbg = debugger_with(1, var);
    let mut t = ConstrainedValue::Tuple(vec![integer(IntegerType::I8, "-1"), integer(IntegerType::I8, "2"), boolean(true)]);
    t.resolve_debug_value(&mut dbg, 1);
    let v = dbg.debug_data.variables.get(&1).unwrap();
    assert_eq!(v.sub_variables.len(), 3);
    assert_eq!(v.sub_variables[0].name, "x");
    assert_eq!(v.sub_variables[0].value, "-1");
    assert_eq!(v.sub_variables[1].name, "1");
    assert_eq!(v.sub_variables[1].value, "2");
    assert_eq!(v.sub_variables[2].name, "2");
    assert!(matches!(v.sub_variables[2].type_, DebugVariableType::Boolean));
}

#[test]
fn unknown_variable_and_plain_mode_change_nothing() {
    let mut dbg = debugger_with(1, plain("v"));
    let mut i = integer(IntegerType::U8, "7");
    i.resolve_debug_value(&mut dbg, 2);
    assert_eq!(dbg.debug_data.variables.len(), 1);
    assert_eq!(dbg.debug_data.variables.get(&1).unwrap().value, "");
    let mut quiet = Debugger::new(DebugData::new(false, None));
    quiet.debug_data.add_variable(1, plain("v"));
    i.resolve_debug_value(&mut quiet, 1);
    assert_eq!(quiet.debug_data.variables.get(&1).unwrap().value, "");
}

#[test]
fn extract_gives_the_variant_or_the_value() {
    let b = boolean(true);
    assert_eq!(b.extract_bool().unwrap().get_value(), Some(true));
    assert!(b.extract_integer().is_err());
    let i = integer(IntegerType::U16, "5");
    assert_eq!(i.extract_integer().unwrap().text, "5");
    assert!(i.extract_bool().is_err());
    let a = ConstrainedValue::Array(vec![boolean(false)]);
    assert_eq!(a.extract_array().unwrap().len(), 1);
    assert!(a.extract_tuple().is_err());
    let t = ConstrainedValue::Tuple(vec![]);
    assert!(t.extract_tuple().unwrap().is_empty());
    assert!(t.extract_array().is_err());
}

#[test]
fn matches_scalar_types() {
    assert!(boolean(true).matches_input_type(&Type::Boolean));
    assert!(!boolean(true).matches_input_type(&Type::Field));
    assert!(integer(IntegerType::U8, "1").matches_input_type(&Type::U8));
    assert!(!integer(IntegerType::U8, "1").matches_input_type(&Type::I8));
    assert!(integer(IntegerType::I128, "1").matches_input_type(&Type::I128));
    assert!(ConstrainedValue::Address(Address { text: "a".to_string() }).matches_input_type(&Type::Address));
    assert!(ConstrainedValue::Char(Char { text: "c".to_string() }).matches_input_type(&Type::Char));
    assert!(ConstrainedValue::Field(FieldType { value: None, debug_text: String::new() }).matches_input_type(&Type::Field));
    assert!(ConstrainedValue::Group(GroupValue { debug_values: vec![], text: "g".to_string(), debug_text: String::new() }).matches_input_type(&Type::Group));
}

#[test]
fn matches_arrays_by_length_and_elements() {
    let a = ConstrainedValue::Array(vec![integer(IntegerType::U8, "1"), integer(IntegerType::U8, "2")]);
    assert!(a.matches_input_type(&Type::Array(Box::new(Type::U8), Some(2))));
    assert!(a.matches_input_type(&Type::Array(Box::new(Type::U8), None)));
    assert!(!a.matches_input_type(&Type::Array(Box::new(Type::U8), Some(3))));
    assert!(!a.matches_input_type(&Type::Array(Box::new(Type::U16), None)));
    assert!(!a.matches_input_type(&Type::Tuple(vec![Type::U8, Type::U8])));
}

#[test]
fn matches_tuples_as_far_as_the_shorter_goes() {
    let t = ConstrainedValue::Tuple(vec![integer(IntegerType::U8, "1"), boolean(true)]);
    assert!(t.matches_input_type(&Type::Tuple(vec![Type::U8, Type::Boolean])));
    assert!(t.matches_input_type(&Type::Tuple(vec![Type::U8])));
    assert!(t.matches_input_type(&Type::Tuple(vec![Type::U8, Type::Boolean, Type::Field])));
    assert!(!t.matches_input_type(&Type::Tuple(vec![Type::Boolean])));
    let members = vec![("x".to_string(), Type::U8), ("flag".to_string(), Type::Boolean)];
    assert!(t.matches_input_type(&Type::Circuit(members)));
    let wrong = vec![("x".to_string(), Type::U16)];
    assert!(!t.matches_input_type(&Type::Circuit(wrong)));
}

#[test]
fn showing_touches_only_its_variable() {
    let mut d = DebugData::new(true, None);
    d.add_variable(4, plain("a"));
    d.add_variable(2, plain("b"));
    d.add_variable(9, plain("c"));
    let mut dbg = Debugger::new(d);
    let mut i = integer(IntegerType::U64, "12");
    i.resolve_debug_value(&mut dbg, 2);
    let keys: Vec<u32> = dbg.debug_data.variables.keys().cloned().collect();
    assert_eq!(keys, vec![4, 2, 9]);
    assert_eq!(dbg.debug_data.variables.get(&2).unwrap().value, "12");
    assert_eq!(dbg.debug_data.variables.get(&4).unwrap().value, "");
    assert_eq!(dbg.debug_data.variables.get(&9).unwrap().name, "c");
}

fn character(c: &str) -> ConstrainedValue {
    ConstrainedValue::Char(Char { text: c.to_string() })
}

#[test]
fn prints_scalars() {
    assert_eq!(boolean(true).to_display_string(), "true");
    assert_eq!(ConstrainedValue::Boolean(Boolean { value: None }).to_display_string(), "[allocated]");
    assert_eq!(integer(IntegerType::U8, "5").to_display_string(), "5");
    assert_eq!(ConstrainedValue::Address(Address { text: "aleo1q".to_string() }).to_display_string(), "aleo1q");
    let f = ConstrainedValue::Field(FieldType { value: Some("1".to_string()), debug_text: "Constant(1)".to_string() });
    assert_eq!(f.to_display_string(), "Constant(1)");
    let g = ConstrainedValue::Group(GroupValue { debug_values: vec![], text: "0group".to_string(), debug_text: "Constant(0)".to_string() });
    assert_eq!(g.to_display_string(), "Constant(0)");
}

#[test]
fn prints_arrays_and_tuples() {
    let a = ConstrainedValue::Array(vec![integer(IntegerType::U8, "1"), integer(IntegerType::U8, "2"), integer(IntegerType::U8, "3")]);
    assert_eq!(a.to_display_string(), "[1, 2, 3]");
    let s = ConstrainedValue::Array(vec![character("h"), character("i")]);
    assert_eq!(s.to_display_string(), "hi");
    let t = ConstrainedValue::Tuple(vec![boolean(false), a, ConstrainedValue::Tuple(vec![])]);
    assert_eq!(t.to_display_string(), "(false, [1, 2, 3], ())");
    let one = ConstrainedValue::Array(vec![boolean(true)]);
    assert_eq!(one.to_display_string(), "[true]");
}

#[test]
fn structures_match_kind_and_length() {
    assert!(boolean(true).matching_structure(&boolean(false)));
    assert!(!boolean(true).matching_structure(&integer(IntegerType::U8, "1")));
    let a = ConstrainedValue::Array(vec![integer(IntegerType::U8, "1"), boolean(true)]);
    let b = ConstrainedValue::Array(vec![integer(IntegerType::U16, "2"), boolean(false)]);
    assert!(a.matching_structure(&b));
    let c = ConstrainedValue::Array(vec![integer(IntegerType::U8, "1")]);
    assert!(!a.matching_structure(&c));
    let d = ConstrainedValue::Array(vec![boolean(true), boolean(false)]);
    assert!(!a.matching_structure(&d));
    let t1 = ConstrainedValue::Tuple(vec![a]);
    let t2 = ConstrainedValue::Tuple(vec![b]);
    assert!(t1.matching_structure(&t2));
    assert!(!t1.matching_structure(&ConstrainedValue::Array(vec![])));
}
