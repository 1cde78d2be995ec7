use vstd::prelude::*;

verus! {

/// The kind of value a debug variable holds.
#[derive(Clone, Copy, Debug)]
pub enum DebugVariableType {
    Empty,
    Group,
    Char,
    Integer,
    Circuit,
    Array,
    Boolean,
    Field,
    String,
    Tuple,
}

#[derive(Clone)]
pub struct DebugSomeType {
    pub value: String,
}

/// A variable as the debugger shows it: a name, a kind, the value as text and
/// the variables nested in it (array elements, tuple items, circuit members).
pub struct DebugVariable {
    pub name: String,
    pub type_: DebugVariableType,
    pub value: String,
    pub circuit_id: u32,
    pub mutable: bool,
    pub is_argument: bool,
    pub const_: bool,
    pub line_start: u32,
    pub line_end: u32,
    pub sub_variables: Vec<DebugVariable>,
}

/// The value of a debug variable, with its nested variables taken by value.
pub struct VariableView {
    pub name: Seq<char>,
    pub type_: DebugVariableType,
    pub value: Seq<char>,
    pub circuit_id: u32,
    pub mutable: bool,
    pub is_argument: bool,
    pub const_: bool,
    pub line_start: u32,
    pub line_end: u32,
    pub sub_variables: Seq<VariableView>,
}

pub open spec fn variable_view(v: DebugVariable) -> VariableView
    decreases v, 1int,
{
    proof {
        assert(decreases_to!(v => v.sub_variables));
        assert(decreases_to!(v.sub_variables => v.sub_variables@));
    }
    VariableView {
        name: v.name@,
        type_: v.type_,
        value: v.value@,
        circuit_id: v.circuit_id,
        mutable: v.mutable,
        is_argument: v.is_argument,
        const_: v.const_,
        line_start: v.line_start,
        line_end: v.line_end,
        sub_variables: variables_view(v.sub_variables@),
    }
}

pub open spec fn variables_view(s: Seq<DebugVariable>) -> Seq<VariableView>
    decreases s, 0int,
{
    if s.len() == 0 {
        Seq::empty()
    } else {
        proof {
            assert(decreases_to!(s => s[s.len() - 1]));
        }
        variables_view(s.drop_last()).push(variable_view(s[s.len() - 1]))
    }
}

pub proof fn lemma_variables_view_index(s: Seq<DebugVariable>, i: int)
    requires
        0 <= i < s.len(),
    ensures
        variables_view(s).len() == s.len(),
        variables_view(s)[i] == variable_view(s[i]),
    decreases s.len(),
{
    lemma_variables_view_len(s);
    lemma_variables_view_len(s.drop_last());
    if i < s.len() - 1 {
        lemma_variables_view_index(s.drop_last(), i);
        assert(s.drop_last()[i] == s[i]);
    }
}

pub proof fn lemma_variables_view_len(s: Seq<DebugVariable>)
    ensures
        variables_view(s).len() == s.len(),
    decreases s.len(),
{
    if s.len() > 0 {
        lemma_variables_view_len(s.drop_last());
    }
}

impl View for DebugVariable {
    type V = VariableView;

    open spec fn view(&self) -> VariableView {
        variable_view(*self)
    }
}

/// The view of a variable with the given fields, no nested variables and
/// every other field zero or false.
pub open spec fn plain_view(
    type_: DebugVariableType,
    name: Seq<char>,
    value: Seq<char>,
    circuit_id: u32,
    line_start: u32,
    line_end: u32,
) -> VariableView {
    VariableView {
        name: name,
        type_: type_,
        value: value,
        circuit_id: circuit_id,
        mutable: false,
        is_argument: false,
        const_: false,
        line_start: line_start,
        line_end: line_end,
        sub_variables: Seq::empty(),
    }
}

/// A variable with the given fields and every other field empty, zero or false.
pub open spec fn plain_variable(
    type_: DebugVariableType,
    name: Seq<char>,
    value: Seq<char>,
    circuit_id: u32,
    line_start: u32,
    line_end: u32,
    v: DebugVariable,
) -> bool {
    &&& v.name@ == name
    &&& v.type_ == type_
    &&& v.value@ == value
    &&& v.circuit_id == circuit_id
    &&& !v.mutable
    &&& !v.is_argument
    &&& !v.const_
    &&& v.line_start == line_start
    &&& v.line_end == line_end
    &&& v.sub_variables@ == Seq::<DebugVariable>::empty()
}

impl DebugVariable {
    pub fn new() -> (r: Self)
        ensures
            plain_variable(DebugVariableType::Empty, Seq::empty(), Seq::empty(), 0, 0, 0, r),
            r@ == plain_view(DebugVariableType::Empty, Seq::empty(), Seq::empty(), 0, 0, 0),
    {
        let r = DebugVariable {
            name: String::new(),
            type_: DebugVariableType::Empty,
            value: String::new(),
            circuit_id: 0,
            mutable: false,
            is_argument: false,
            const_: false,
            line_start: 0,
            line_end: 0,
            sub_variables: Vec::new(),
        };
        assert(variables_view(r.sub_variables@) =~= Seq::<VariableView>::empty());
        r
    }

    pub fn new_some_variable(
        type_: DebugVariableType,
        name: String,
        value: String,
        line_start: u32,
        line_end: u32,
    ) -> (r: Self)
        ensures
            plain_variable(type_, name@, value@, 0, line_start, line_end, r),
            r@ == plain_view(type_, name@, value@, 0, line_start, line_end),
            r.name == name,
            r.value == value,
    {
        let r = DebugVariable {
            name: name,
            type_: type_,
            value: value,
            circuit_id: 0,
            mutable: false,
            is_argument: false,
            const_: false,
            line_start: line_start,
            line_end: line_end,
            sub_variables: Vec::new(),
        };
        assert(variables_view(r.sub_variables@) =~= Seq::<VariableView>::empty());
        r
    }

    pub fn new_circuit(
        name: String,
        value: String,
        circuit_id: u32,
        line_start: u32,
        line_end: u32,
    ) -> (r: Self)
        ensures
            plain_variable(DebugVariableType::Circuit, name@, value@, circuit_id, line_start, line_end, r),
            r@ == plain_view(DebugVariableType::Circuit, name@, value@, circuit_id, line_start, line_end),
            r.name == name,
            r.value == value,
    {
        let r = DebugVariable {
            name: name,
            type_: DebugVariableType::Circuit,
            value: value,
            circuit_id: circuit_id,
            mutable: false,
            is_argument: false,
            const_: false,
            line_start: line_start,
            line_end: line_end,
            sub_variables: Vec::new(),
        };
        assert(variables_view(r.sub_variables@) =~= Seq::<VariableView>::empty());
        r
    }
}


/// Any two values of this type compare equal.
impl PartialEq for DebugSomeType {
    fn eq(&self, other: &Self) -> (r: bool) {
        true
    }
}

impl vstd::std_specs::cmp::PartialEqSpecImpl for DebugSomeType {
    open spec fn obeys_eq_spec() -> bool {
        true
    }

    open spec fn eq_spec(&self, other: &Self) -> bool {
        true
    }
}

/// Any two debug variables compare equal: equality does not look into them.
impl PartialEq for DebugVariable {
    fn eq(&self, other: &Self) -> (r: bool) {
        true
    }
}

impl vstd::std_specs::cmp::PartialEqSpecImpl for DebugVariable {
    open spec fn obeys_eq_spec() -> bool {
        true
    }

    open spec fn eq_spec(&self, other: &Self) -> bool {
        true
    }
}

} // verus!
