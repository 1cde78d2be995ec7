use vstd::prelude::*;

verus! {

/// One instruction of a function: the variable it defines and its lines.
pub struct DebugInstruction {
    pub self_var_id: u32,
    pub line_start: u32,
    pub line_end: u32,
}

impl Clone for DebugInstruction {
    fn clone(&self) -> (r: Self)
        ensures
            r == *self,
    {
        DebugInstruction {
            self_var_id: self.self_var_id,
            line_start: self.line_start,
            line_end: self.line_end,
        }
    }
}


/// Any two instructions compare equal: equality does not look into them.
impl PartialEq for DebugInstruction {
    fn eq(&self, other: &Self) -> (r: bool) {
        true
    }
}

impl vstd::std_specs::cmp::PartialEqSpecImpl for DebugInstruction {
    open spec fn obeys_eq_spec() -> bool {
        true
    }

    open spec fn eq_spec(&self, other: &Self) -> bool {
        true
    }
}

} // verus!
