use vstd::prelude::*;

verus! {

/// A circuit definition: its name, the variables that are its members, the
/// functions that belong to it and the lines it spans.
#[derive(Clone)]
pub struct DebugCircuit {
    pub name: String,
    pub members: Vec<u32>,
    pub functions: Vec<u32>,
    pub line_start: u32,
    pub line_end: u32,
}

/// A circuit with its strings and lists taken by value.
pub struct CircuitView {
    pub name: Seq<char>,
    pub members: Seq<u32>,
    pub functions: Seq<u32>,
    pub line_start: u32,
    pub line_end: u32,
}

impl View for DebugCircuit {
    type V = CircuitView;

    open spec fn view(&self) -> CircuitView {
        CircuitView {
            name: self.name@,
            members: self.members@,
            functions: self.functions@,
            line_start: self.line_start,
            line_end: self.line_end,
        }
    }
}


/// Any two debug circuits compare equal: equality does not look into them.
impl PartialEq for DebugCircuit {
    fn eq(&self, other: &Self) -> (r: bool) {
        true
    }
}

impl vstd::std_specs::cmp::PartialEqSpecImpl for DebugCircuit {
    open spec fn obeys_eq_spec() -> bool {
        true
    }

    open spec fn eq_spec(&self, other: &Self) -> bool {
        true
    }
}

} // verus!
