//! The state of the step debugger and its decisions. The thread that talks to
//! the debug adapter, the condition variable a step waits on and the channel
//! to the adapter stay with the caller: each decision here says which event to
//! send and whether to wait for the next step.
use crate::debugdata::{DebugData, DebugDataView};
use crate::entries::{lemma_index_of, lookup};
use crate::function::FunctionView;
use crate::index_map::{functions_get, instructions_get, variables_get};
use crate::variable::DebugVariableType;
use vstd::prelude::*;

verus! {

/// A line of a source file where the run is to stop.
pub struct Breakpoint {
    pub file_path: String,
    pub line: u32,
}

pub struct BreakpointView {
    pub file_path: Seq<char>,
    pub line: u32,
}

impl View for Breakpoint {
    type V = BreakpointView;

    open spec fn view(&self) -> BreakpointView {
        BreakpointView { file_path: self.file_path@, line: self.line }
    }
}

pub open spec fn breakpoints_view(s: Seq<Breakpoint>) -> Seq<BreakpointView> {
    s.map_values(|b: Breakpoint| b@)
}

/// What the debugger tells the adapter thread.
#[derive(Clone, Copy, Debug, PartialEq, Eq, Structural)]
pub enum DebugEvent {
    Stack,
    NextStep,
    BreakpointHit,
}

/// What the caller does after a decision: send `event` to the adapter thread,
/// if there is one, then, if `wait`, block until the adapter asks for the next
/// step.
#[derive(Clone, Copy, Debug, PartialEq, Eq, Structural)]
pub struct Directive {
    pub event: Option<DebugEvent>,
    pub wait: bool,
}

/// Where `evaluate_instruction` resumes after the caller has carried out a
/// directive.
#[derive(Clone, Copy, Debug, PartialEq, Eq, Structural)]
pub enum EvalStage {
    Start,
    AfterStepInto,
    Continue,
    AfterInstruction,
    Finished,
}

pub struct Debugger {
    pub debug_data: DebugData,
    pub is_debug_mode: bool,
    pub cur_stack_frame_id: u32,
    pub cur_variables_reference_id: u32,
    pub cur_function_id: u32,
    pub call_depth: u32,
    pub cur_program_call_depth: u32,
    pub is_step_into: bool,
    pub is_step_out: bool,
    pub is_call_instruction: bool,
    pub is_breakpoint_hit: bool,
    pub breakpoints: Vec<Breakpoint>,
}

pub struct DebuggerView {
    pub debug_data: DebugDataView,
    pub is_debug_mode: bool,
    pub cur_stack_frame_id: u32,
    pub cur_variables_reference_id: u32,
    pub cur_function_id: u32,
    pub call_depth: u32,
    pub cur_program_call_depth: u32,
    pub is_step_into: bool,
    pub is_step_out: bool,
    pub is_call_instruction: bool,
    pub is_breakpoint_hit: bool,
    pub breakpoints: Seq<BreakpointView>,
}

impl View for Debugger {
    type V = DebuggerView;

    open spec fn view(&self) -> DebuggerView {
        DebuggerView {
            debug_data: self.debug_data@,
            is_debug_mode: self.is_debug_mode,
            cur_stack_frame_id: self.cur_stack_frame_id,
            cur_variables_reference_id: self.cur_variables_reference_id,
            cur_function_id: self.cur_function_id,
            call_depth: self.call_depth,
            cur_program_call_depth: self.cur_program_call_depth,
            is_step_into: self.is_step_into,
            is_step_out: self.is_step_out,
            is_call_instruction: self.is_call_instruction,
            is_breakpoint_hit: self.is_breakpoint_hit,
            breakpoints: breakpoints_view(self.breakpoints@),
        }
    }
}

pub open spec fn no_directive() -> Directive {
    Directive { event: None, wait: false }
}

/// The directive of a "next step" response: sent and waited for in debug mode only.
pub open spec fn next_step_directive(debug: bool) -> Directive {
    Directive { event: if debug { Some(DebugEvent::NextStep) } else { None }, wait: debug }
}

pub open spec fn with_stack(d: DebuggerView, stack: Seq<FunctionView>) -> DebuggerView {
    DebuggerView { debug_data: DebugDataView { stack: stack, ..d.debug_data }, ..d }
}

/// The top frame moved to `current_line`, its statement ending at `line_end`.
pub open spec fn update_position_view(d: DebuggerView, current_line: u32, line_end: u32) -> DebuggerView {
    let s = d.debug_data.stack;
    if d.is_debug_mode && s.len() > 0 {
        with_stack(d, s.update(s.len() - 1, FunctionView { current_line: current_line, line_end: line_end, ..s.last() }))
    } else {
        d
    }
}

/// The top frame belongs to the circuit value recorded under `id`, if that
/// variable is a circuit.
pub open spec fn set_self_reference_view(d: DebuggerView, id: u32) -> DebuggerView {
    let s = d.debug_data.stack;
    if d.is_debug_mode && s.len() > 0 && lookup(d.debug_data.variables, id) is Some
        && lookup(d.debug_data.variables, id).unwrap().type_ is Circuit {
        with_stack(d, s.update(s.len() - 1, FunctionView { self_circuit_id: id, ..s.last() }))
    } else {
        d
    }
}

/// A new frame for the function recorded under `func_id`, when the call depth
/// is above the stack's height.
pub open spec fn add_to_stack_view(d: DebuggerView, func_id: u32) -> DebuggerView {
    let s = d.debug_data.stack;
    if d.is_debug_mode && d.call_depth > (s.len() as u32) && lookup(d.debug_data.functions, func_id) is Some {
        let f = lookup(d.debug_data.functions, func_id).unwrap();
        let s2 = s.push(FunctionView { current_line: f.line_start, ..f });
        DebuggerView {
            debug_data: DebugDataView { stack: s2, call_dept: s2.len() as u32, ..d.debug_data },
            ..d
        }
    } else {
        d
    }
}

/// Leaving a function: the program depth goes down by one (but not below one)
/// and the top frame is dropped when `call_depth` is the stack's height.
pub open spec fn pop_stack_view(d: DebuggerView, call_depth: u32) -> DebuggerView {
    if !d.is_debug_mode {
        d
    } else if d.cur_program_call_depth - 1 < 1 {
        DebuggerView { cur_program_call_depth: 1, ..d }
    } else {
        let d1 = DebuggerView { cur_program_call_depth: (d.cur_program_call_depth - 1) as u32, ..d };
        if call_depth > 1 && call_depth == (d.debug_data.stack.len() as u32) {
            DebuggerView { call_depth: (call_depth - 1) as u32, ..with_stack(d1, d1.debug_data.stack.drop_last()) }
        } else {
            d1
        }
    }
}

/// A pending "step out" request, carried out: the frame is left and the
/// adapter is told, then the next step is waited for.
pub open spec fn step_out_view(d: DebuggerView) -> (DebuggerView, Directive) {
    if d.is_step_out {
        let d1 = DebuggerView { is_step_out: false, ..d };
        let d2 = pop_stack_view(d1, d1.call_depth);
        (d2, next_step_directive(d2.is_debug_mode))
    } else {
        (d, no_directive())
    }
}

/// Whether a breakpoint is set on `line` of the file whose canonical path is
/// `file`, given the canonical path of each breakpoint's file.
pub open spec fn breakpoint_set(bps: Seq<BreakpointView>, paths: Seq<Seq<char>>, file: Seq<char>, line: u32) -> bool {
    exists|i: int| 0 <= i < bps.len() && i < paths.len() && paths[i] == file && bps[i].line == line
}

/// The rest of an instruction after a possible step into a call: the step
/// flags are cleared, then the run stops at the instruction's line, unless a
/// breakpoint hit is being run to and no breakpoint is set on that line.
pub open spec fn continue_view(
    d: DebuggerView,
    function_index: u32,
    instruction_index: u32,
    paths: Seq<Seq<char>>,
    file: Seq<char>,
) -> (DebuggerView, EvalStage, Directive) {
    let d1 = DebuggerView { is_step_into: false, is_call_instruction: false, ..d };
    if instruction_index == u32::MAX {
        (d1, EvalStage::Finished, no_directive())
    } else {
        match lookup(d1.debug_data.functions, function_index) {
            Some(f) => match lookup(f.instructions, instruction_index) {
                Some(ins) => if d1.is_breakpoint_hit {
                    if breakpoint_set(d1.breakpoints, paths, file, ins.line_start) {
                        let d2 = update_position_view(d1, ins.line_start, ins.line_end);
                        if d2.is_debug_mode {
                            (
                                DebuggerView { is_breakpoint_hit: false, ..d2 },
                                EvalStage::AfterInstruction,
                                Directive { event: Some(DebugEvent::BreakpointHit), wait: true },
                            )
                        } else {
                            (d2, EvalStage::AfterInstruction, no_directive())
                        }
                    } else {
                        (d1, EvalStage::Finished, no_directive())
                    }
                } else {
                    let d2 = update_position_view(d1, ins.line_start, ins.line_end);
                    (d2, EvalStage::AfterInstruction, next_step_directive(d2.is_debug_mode))
                },
                None => (d1, EvalStage::Finished, no_directive()),
            },
            None => (d1, EvalStage::Finished, no_directive()),
        }
    }
}

/// One stage of evaluating instruction `instruction_index` of function
/// `function_index`: the new state, the stage to resume at and what the
/// caller does in between.
pub open spec fn evaluate_instruction_view(
    d: DebuggerView,
    function_index: u32,
    instruction_index: u32,
    stage: EvalStage,
    paths: Seq<Seq<char>>,
    file: Seq<char>,
) -> (DebuggerView, EvalStage, Directive) {
    match stage {
        EvalStage::Start => {
            if !d.is_debug_mode || !(d.call_depth == (d.debug_data.stack.len() as u32)
                && d.call_depth == d.cur_program_call_depth) {
                (d, EvalStage::Finished, no_directive())
            } else {
                match lookup(d.debug_data.functions, function_index) {
                    Some(f) => if d.is_step_into && d.is_call_instruction {
                        let d2 = update_position_view(d, f.line_start, f.line_end);
                        (d2, EvalStage::AfterStepInto, next_step_directive(d2.is_debug_mode))
                    } else {
                        continue_view(d, function_index, instruction_index, paths, file)
                    },
                    None => continue_view(d, function_index, instruction_index, paths, file),
                }
            }
        },
        EvalStage::AfterStepInto => {
            let (d2, dir) = step_out_view(d);
            (d2, EvalStage::Continue, dir)
        },
        EvalStage::Continue => continue_view(d, function_index, instruction_index, paths, file),
        EvalStage::AfterInstruction => {
            let (d2, dir) = step_out_view(d);
            (d2, EvalStage::Finished, dir)
        },
        EvalStage::Finished => (d, EvalStage::Finished, no_directive()),
    }
}

pub open spec fn strings_view(s: Seq<String>) -> Seq<Seq<char>> {
    s.map_values(|x: String| x@)
}

impl Debugger {
    pub fn new(debug_data: DebugData) -> (r: Self)
        ensures
            r@ == (DebuggerView {
                debug_data: debug_data@,
                is_debug_mode: debug_data.debug,
                cur_stack_frame_id: 200,
                cur_variables_reference_id: 300,
                cur_function_id: 0,
                call_depth: 1,
                cur_program_call_depth: 1,
                is_step_into: false,
                is_step_out: false,
                is_call_instruction: false,
                is_breakpoint_hit: false,
                breakpoints: Seq::empty(),
            }),
    {
        let debug_mode = debug_data.debug;
        let r = Debugger {
            debug_data: debug_data,
            is_debug_mode: debug_mode,
            cur_stack_frame_id: 200,
            cur_variables_reference_id: 300,
            cur_function_id: 0,
            call_depth: 1,
            cur_program_call_depth: 1,
            is_step_into: false,
            is_step_out: false,
            is_call_instruction: false,
            is_breakpoint_hit: false,
            breakpoints: Vec::new(),
        };
        assert(breakpoints_view(r.breakpoints@) =~= Seq::empty());
        r
    }

    /// Whether the caller blocks until the next step is asked for: only in
    /// debug mode.
    pub fn wait_for_next_step(&self) -> (r: bool)
        ensures
            r == self.is_debug_mode,
    {
        self.is_debug_mode
    }

    pub fn update_position(&mut self, current_line: u32, line_end: u32)
        ensures
            final(self)@ == update_position_view(old(self)@, current_line, line_end),
    {
        if !self.is_debug_mode {
            return;
        }
        let n = self.debug_data.stack.len();
        if n > 0 {
            let ghost s0 = self.debug_data.stack@;
            let mut func = self.debug_data.stack.pop().unwrap();
            func.current_line = current_line;
            func.line_end = line_end;
            self.debug_data.stack.push(func);
            proof {
                let v0 = old(self)@.debug_data.stack;
                assert(self.debug_data.stack@ =~= s0.drop_last().push(func));
                assert(self@.debug_data.stack =~= v0.update(v0.len() - 1, FunctionView {
                    current_line: current_line,
                    line_end: line_end,
                    ..v0.last()
                }));
            }
        }
    }

    pub fn set_self_reference(&mut self, self_circuit_id: u32)
        ensures
            final(self)@ == set_self_reference_view(old(self)@, self_circuit_id),
    {
        if !self.is_debug_mode {
            return;
        }
        let n = self.debug_data.stack.len();
        if n == 0 {
            return;
        }
        let is_circuit = match variables_get(&self.debug_data.variables, self_circuit_id) {
            Some(variable) => match variable.type_ {
                DebugVariableType::Circuit => true,
                _ => false,
            },
            None => false,
        };
        if is_circuit {
            let ghost s0 = self.debug_data.stack@;
            let mut func = self.debug_data.stack.pop().unwrap();
            func.self_circuit_id = self_circuit_id;
            self.debug_data.stack.push(func);
            proof {
                let v0 = old(self)@.debug_data.stack;
                assert(self.debug_data.stack@ =~= s0.drop_last().push(func));
                assert(self@.debug_data.stack =~= v0.update(v0.len() - 1, FunctionView {
                    self_circuit_id: self_circuit_id,
                    ..v0.last()
                }));
            }
        }
    }

    pub fn set_debug_call_depth(&mut self, call_depth: u32)
        ensures
            final(self)@ == if old(self).is_debug_mode {
                DebuggerView { call_depth: call_depth, ..old(self)@ }
            } else {
                old(self)@
            },
    {
        if !self.is_debug_mode {
            return;
        }
        self.call_depth = call_depth;
    }

    pub fn get_debug_call_depth(&self) -> (r: u32)
        ensures
            r == self.call_depth,
    {
        self.call_depth
    }

    pub fn set_program_call_depth(&mut self, call_depth: u32)
        ensures
            final(self)@ == if old(self).is_debug_mode {
                DebuggerView { cur_program_call_depth: call_depth, ..old(self)@ }
            } else {
                old(self)@
            },
    {
        if !self.is_debug_mode {
            return;
        }
        self.cur_program_call_depth = call_depth;
    }

    pub fn get_program_call_depth(&self) -> (r: u32)
        ensures
            r == self.cur_program_call_depth,
    {
        self.cur_program_call_depth
    }

    /// Pushes a frame for the function recorded under `func_id`, starting at
    /// its first line, when the call depth is above the stack's height.
    pub fn add_to_stack(&mut self, func_id: u32)
        ensures
            final(self)@ == add_to_stack_view(old(self)@, func_id),
    {
        if !self.is_debug_mode {
            return;
        }
        if self.call_depth > (self.debug_data.stack.len() as u32) {
            proof {
                lemma_index_of(self.debug_data@.functions, func_id);
            }
            match functions_get(&self.debug_data.functions, func_id) {
                Some(func) => {
                    let mut new_func = func.clone();
                    new_func.current_line = new_func.line_start;
                    let ghost s0 = self.debug_data.stack@;
                    self.debug_data.stack.push(new_func);
                    self.debug_data.call_dept = self.debug_data.stack.len() as u32;
                    proof {
                        let v0 = old(self)@.debug_data.stack;
                        let f = lookup(old(self)@.debug_data.functions, func_id).unwrap();
                        assert(self@.debug_data.stack =~= v0.push(FunctionView { current_line: f.line_start, ..f }));
                    }
                }
                None => {}
            }
        }
    }

    /// Leaves a function: see `pop_stack_view`.
    pub fn pop_stack(&mut self, call_depth: u32)
        requires
            old(self).is_debug_mode ==> old(self).cur_program_call_depth >= 1,
        ensures
            final(self)@ == pop_stack_view(old(self)@, call_depth),
            final(self).is_debug_mode ==> final(self).cur_program_call_depth >= 1,
    {
        if !self.is_debug_mode {
            return;
        }
        self.cur_program_call_depth = self.cur_program_call_depth - 1;
        if self.cur_program_call_depth < 1 {
            self.cur_program_call_depth = 1;
            return;
        }
        if call_depth > 1 && call_depth == (self.debug_data.stack.len() as u32) {
            let ghost s0 = self.debug_data.stack@;
            let _top = self.debug_data.stack.pop();
            self.set_debug_call_depth(call_depth - 1);
            proof {
                assert(self@.debug_data.stack =~= stack_of(old(self)@).drop_last());
            }
        }
    }

    /// Carries out a pending "step out" request.
    pub fn step_out(&mut self) -> (r: Directive)
        requires
            old(self).is_step_out && old(self).is_debug_mode ==> old(self).cur_program_call_depth >= 1,
        ensures
            (final(self)@, r) == step_out_view(old(self)@),
            final(self).is_debug_mode ==> (old(self).cur_program_call_depth >= 1 ==> final(self).cur_program_call_depth >= 1),
    {
        if self.is_step_out {
            self.is_step_out = false;
            let debug_call_depth = self.get_debug_call_depth();
            self.pop_stack(debug_call_depth);
            let event = self.send_next_step_response();
            let wait = self.wait_for_next_step();
            Directive { event, wait }
        } else {
            Directive { event: None, wait: false }
        }
    }

    /// The stack to be shown, in debug mode.
    pub fn send_stack_frame(&self) -> (r: Option<DebugEvent>)
        ensures
            r == if self.is_debug_mode { Some(DebugEvent::Stack) } else { None },
    {
        if !self.is_debug_mode {
            return None;
        }
        Some(DebugEvent::Stack)
    }

    /// The answer to a "next step" request, in debug mode.
    pub fn send_next_step_response(&self) -> (r: Option<DebugEvent>)
        ensures
            r == next_step_directive(self.is_debug_mode).event,
    {
        if !self.is_debug_mode {
            return None;
        }
        Some(DebugEvent::NextStep)
    }

    /// The report of a breakpoint hit, in debug mode; the hit is then handled.
    pub fn send_breakpoint_hit_response(&mut self) -> (r: Option<DebugEvent>)
        ensures
            r == if old(self).is_debug_mode { Some(DebugEvent::BreakpointHit) } else { None },
            final(self)@ == if old(self).is_debug_mode {
                DebuggerView { is_breakpoint_hit: false, ..old(self)@ }
            } else {
                old(self)@
            },
    {
        if !self.is_debug_mode {
            return None;
        }
        self.is_breakpoint_hit = false;
        Some(DebugEvent::BreakpointHit)
    }

    /// Records a breakpoint on `line` of `file_path` (whose file exists).
    pub fn add_breakpoint(&mut self, file_path: String, line: u32)
        ensures
            final(self)@ == (DebuggerView {
                breakpoints: old(self)@.breakpoints.push(BreakpointView { file_path: file_path@, line: line }),
                ..old(self)@
            }),
    {
        let ghost b0 = self.breakpoints@;
        let b = Breakpoint { file_path, line };
        self.breakpoints.push(b);
        assert(breakpoints_view(self.breakpoints@) =~= breakpoints_view(b0).push(b@));
    }

    /// Removes every breakpoint of `file_path`; the others keep their order.
    pub fn clear_all_breakpoints(&mut self, file_path: &String)
        ensures
            final(self)@ == (DebuggerView {
                breakpoints: old(self)@.breakpoints.filter(not_in_file(file_path@)),
                ..old(self)@
            }),
    {
        let mut kept: Vec<Breakpoint> = Vec::new();
        let mut rest: Vec<Breakpoint> = Vec::new();
        std::mem::swap(&mut rest, &mut self.breakpoints);
        let ghost all = breakpoints_view(rest@);
        let ghost pred = not_in_file(file_path@);
        assert(breakpoints_view(self.breakpoints@) =~= Seq::<BreakpointView>::empty());
        assert(all.take(0).filter(pred) =~= Seq::<BreakpointView>::empty()) by {
            reveal(Seq::filter);
        }
        assert(breakpoints_view(kept@) =~= Seq::<BreakpointView>::empty());
        let n = rest.len();
        let mut i: usize = 0;
        while i < n
            invariant
                0 <= i <= n,
                n == all.len(),
                pred == not_in_file(file_path@),
                all == breakpoints_view(old(self).breakpoints@),
                rest@.len() == n - i,
                forall|j: int| 0 <= j < rest@.len() ==> rest@[j]@ == all[i + j],
                breakpoints_view(kept@) == all.take(i as int).filter(pred),
                self.breakpoints@.len() == 0,
                self.debug_data == old(self).debug_data,
                self@ == (DebuggerView { breakpoints: Seq::empty(), ..old(self)@ }),
            decreases n - i,
        {
            let b = rest.remove(0);
            proof {
                assert(all.take(i + 1).drop_last() =~= all.take(i as int));
                assert(b@ == all[i as int]);
                reveal(Seq::filter);
                assert(all.take(i + 1).last() == b@);
            }
            let ghost kept0 = kept@;
            let ghost bv = b@;
            let same_file = b.file_path == *file_path;
            if !same_file {
                kept.push(b);
                assert(breakpoints_view(kept@) =~= breakpoints_view(kept0).push(bv));
            }
            proof {
                let t = all.take(i + 1);
                assert(t.filter(pred) == if pred(t.last()) { t.drop_last().filter(pred).push(t.last()) } else { t.drop_last().filter(pred) });
                assert(pred(bv) == !same_file);
            }
            proof {
                assert(forall|j: int| 0 <= j < rest@.len() ==> rest@[j]@ == all[i + 1 + j]);
            }
            i = i + 1;
        }
        assert(all.take(n as int) =~= all);
        self.breakpoints = kept;
    }

    /// The first breakpoint on `line` of the file whose canonical path is
    /// `canonical_file`, given the canonical path of each breakpoint's file.
    pub fn breakpoint_position(&self, canonical_file: &String, canonical_paths: &Vec<String>, line: u32) -> (r: Option<usize>)
        requires
            canonical_paths@.len() == self.breakpoints@.len(),
        ensures
            match r {
                Some(i) => i < self.breakpoints@.len() && canonical_paths@[i as int]@ == canonical_file@
                    && self.breakpoints@[i as int].line == line
                    && forall|j: int| 0 <= j < i ==> !(canonical_paths@[j]@ == canonical_file@
                        && self.breakpoints@[j].line == line),
                None => !breakpoint_set(breakpoints_view(self.breakpoints@), strings_view(canonical_paths@), canonical_file@, line),
            },
    {
        let n = self.breakpoints.len();
        let mut i: usize = 0;
        while i < n
            invariant
                0 <= i <= n,
                n == self.breakpoints@.len(),
                canonical_paths@.len() == n,
                forall|j: int| 0 <= j < i ==> !(canonical_paths@[j]@ == canonical_file@
                    && self.breakpoints@[j].line == line),
            decreases n - i,
        {
            if canonical_paths[i] == *canonical_file && self.breakpoints[i].line == line {
                return Some(i);
            }
            i = i + 1;
        }
        proof {
            let bps = breakpoints_view(self.breakpoints@);
            let ps = strings_view(canonical_paths@);
            assert forall|j: int| 0 <= j < bps.len() && j < ps.len() implies !(ps[j] == canonical_file@
                && bps[j].line == line) by {
                assert(ps[j] == canonical_paths@[j]@);
                assert(bps[j] == self.breakpoints@[j]@);
            }
        }
        None
    }

    fn continue_instruction(
        &mut self,
        function_index: u32,
        instruction_index: u32,
        canonical_file: &String,
        canonical_paths: &Vec<String>,
    ) -> (r: (EvalStage, Directive))
        requires
            old(self).is_breakpoint_hit ==> canonical_paths@.len() == old(self).breakpoints@.len(),
        ensures
            (final(self)@, r.0, r.1) == continue_view(old(self)@, function_index, instruction_index,
                strings_view(canonical_paths@), canonical_file@),
    {
        self.is_step_into = false;
        self.is_call_instruction = false;
        if instruction_index == u32::MAX {
            return (EvalStage::Finished, Directive { event: None, wait: false });
        }
        let lines = match functions_get(&self.debug_data.functions, function_index) {
            Some(func) => match instructions_get(&func.instructions, instruction_index) {
                Some(instruction) => Some((instruction.line_start, instruction.line_end)),
                None => None,
            },
            None => None,
        };
        match lines {
            Some((line_start, line_end)) => {
                if self.is_breakpoint_hit {
                    let position = self.breakpoint_position(canonical_file, canonical_paths, line_start);
                    proof {
                        if position is Some {
                            let k = position.unwrap() as int;
                            assert(strings_view(canonical_paths@)[k] == canonical_paths@[k]@);
                            assert(breakpoints_view(self.breakpoints@)[k] == self.breakpoints@[k]@);
                        }
                    }
                    match position {
                        Some(_) => {
                            self.update_position(line_start, line_end);
                            let event = self.send_breakpoint_hit_response();
                            let wait = self.wait_for_next_step();
                            (EvalStage::AfterInstruction, Directive { event, wait })
                        }
                        None => (EvalStage::Finished, Directive { event: None, wait: false }),
                    }
                } else {
                    self.update_position(line_start, line_end);
                    let event = self.send_next_step_response();
                    let wait = self.wait_for_next_step();
                    (EvalStage::AfterInstruction, Directive { event, wait })
                }
            }
            None => (EvalStage::Finished, Directive { event: None, wait: false }),
        }
    }

    /// One stage of evaluating an instruction; the caller carries out the
    /// directive and then calls again with the returned stage, until it is
    /// `Finished`. Between the calls the adapter may ask to step into or out
    /// of a call, or to run to a breakpoint.
    pub fn evaluate_instruction(
        &mut self,
        function_index: u32,
        instruction_index: u32,
        stage: EvalStage,
        canonical_file: &String,
        canonical_paths: &Vec<String>,
    ) -> (r: (EvalStage, Directive))
        requires
            (stage is AfterStepInto || stage is AfterInstruction) && old(self).is_step_out
                && old(self).is_debug_mode ==> old(self).cur_program_call_depth >= 1,
            (stage is Start || stage is Continue) && old(self).is_breakpoint_hit
                ==> canonical_paths@.len() == old(self).breakpoints@.len(),
        ensures
            (final(self)@, r.0, r.1) == evaluate_instruction_view(old(self)@, function_index, instruction_index, stage,
                strings_view(canonical_paths@), canonical_file@),
    {
        match stage {
            EvalStage::Start => {
                if !self.is_debug_mode {
                    return (EvalStage::Finished, Directive { event: None, wait: false });
                }
                if !(self.call_depth == (self.debug_data.stack.len() as u32)
                    && self.call_depth == self.cur_program_call_depth) {
                    return (EvalStage::Finished, Directive { event: None, wait: false });
                }
                let lines = match functions_get(&self.debug_data.functions, function_index) {
                    Some(func) => Some((func.line_start, func.line_end)),
                    None => None,
                };
                match lines {
                    Some((line_start, line_end)) => {
                        if self.is_step_into && self.is_call_instruction {
                            self.update_position(line_start, line_end);
                            let event = self.send_next_step_response();
                            let wait = self.wait_for_next_step();
                            return (EvalStage::AfterStepInto, Directive { event, wait });
                        }
                    }
                    None => {}
                }
                self.continue_instruction(function_index, instruction_index, canonical_file, canonical_paths)
            }
            EvalStage::AfterStepInto => {
                let directive = self.step_out();
                (EvalStage::Continue, directive)
            }
            EvalStage::Continue => {
                self.continue_instruction(function_index, instruction_index, canonical_file, canonical_paths)
            }
            EvalStage::AfterInstruction => {
                let directive = self.step_out();
                (EvalStage::Finished, directive)
            }
            EvalStage::Finished => (EvalStage::Finished, Directive { event: None, wait: false }),
        }
    }
}

/// The breakpoints that are not in the file `path`.
pub open spec fn not_in_file(path: Seq<char>) -> spec_fn(BreakpointView) -> bool {
    |b: BreakpointView| b.file_path != path
}


/// After `clear_all_breakpoints(path)` no breakpoint of `path` is left, and
/// every breakpoint of another file is still there.
pub proof fn law_clear_breakpoints(bps: Seq<BreakpointView>, path: Seq<char>)
    ensures
        forall|i: int|
            0 <= i < bps.filter(not_in_file(path)).len() ==> #[trigger] bps.filter(not_in_file(path))[i].file_path
                != path,
        forall|i: int|
            0 <= i < bps.len() && bps[i].file_path != path ==> #[trigger] bps.filter(not_in_file(path)).contains(
                bps[i],
            ),
{
    let pred = not_in_file(path);
    assert forall|i: int| 0 <= i < bps.filter(pred).len() implies #[trigger] bps.filter(pred)[i].file_path
        != path by {
        bps.lemma_filter_pred(pred, i);
    }
    assert forall|i: int| 0 <= i < bps.len() && bps[i].file_path != path implies #[trigger] bps.filter(
        pred,
    ).contains(bps[i]) by {
        bps.lemma_filter_contains(pred, i);
    }
}

/// A frame that `add_to_stack` pushes when a call has raised the call depth
/// is dropped by the `pop_stack` that leaves the call: the stack is again
/// what it was.
pub proof fn law_push_then_pop(d: DebuggerView, func_id: u32)
    requires
        d.is_debug_mode,
        d.call_depth == d.debug_data.stack.len() + 1,
        d.debug_data.stack.len() >= 1,
        d.cur_program_call_depth >= 2,
        lookup(d.debug_data.functions, func_id) is Some,
    ensures
        add_to_stack_view(d, func_id).debug_data.stack.len() == d.debug_data.stack.len() + 1,
        pop_stack_view(add_to_stack_view(d, func_id), d.call_depth).debug_data.stack == d.debug_data.stack,
{
    let s = d.debug_data.stack;
    let pushed = add_to_stack_view(d, func_id);
    assert(pushed.debug_data.stack.drop_last() =~= s);
}

/// The run stops for a breakpoint hit only at an instruction of a recorded
/// function whose first line has a breakpoint set in the file being run.
pub proof fn law_breakpoint_hit_only_at_breakpoint(
    d: DebuggerView,
    function_index: u32,
    instruction_index: u32,
    stage: EvalStage,
    paths: Seq<Seq<char>>,
    file: Seq<char>,
)
    ensures
        evaluate_instruction_view(d, function_index, instruction_index, stage, paths, file).2.event == Some(
            DebugEvent::BreakpointHit,
        ) ==> match lookup(d.debug_data.functions, function_index) {
            Some(f) => match lookup(f.instructions, instruction_index) {
                Some(ins) => breakpoint_set(d.breakpoints, paths, file, ins.line_start),
                None => false,
            },
            None => false,
        },
{
}

/// Outside debug mode no stage of an instruction sends anything to the
/// adapter or waits for it.
pub proof fn law_quiet_outside_debug_mode(
    d: DebuggerView,
    function_index: u32,
    instruction_index: u32,
    stage: EvalStage,
    paths: Seq<Seq<char>>,
    file: Seq<char>,
)
    requires
        !d.is_debug_mode,
    ensures
        evaluate_instruction_view(d, function_index, instruction_index, stage, paths, file).2 == no_directive(),
{
}



/// Leaving a call never removes the bottom frame: the frames left are the
/// first frames of the stack, at most the top one is removed, and only when
/// the call depth is above one and equals the stack's height; the call
/// depth then goes down by one and stays at least one.
pub proof fn law_pop_keeps_bottom_frame(d: DebuggerView, call_depth: u32)
    requires
        d.debug_data.stack.len() <= u32::MAX,
    ensures
        ({
            let s = d.debug_data.stack;
            let after = pop_stack_view(d, call_depth);
            let s2 = after.debug_data.stack;
            &&& s2.len() == s.len() || s2.len() + 1 == s.len()
            &&& s2 == s.take(s2.len() as int)
            &&& s.len() >= 1 ==> s2.len() >= 1
            &&& call_depth <= 1 ==> s2 == s
            &&& s2.len() < s.len() ==> (call_depth >= 2 && call_depth == s.len() && after.call_depth == call_depth - 1)
            &&& s2.len() == s.len() ==> after.call_depth == d.call_depth
        }),
{
    let s = d.debug_data.stack;
    assert(s.take(s.len() as int) =~= s);
    assert(s.drop_last() =~= s.take(s.len() - 1));
    assert((s.len() as u32) == s.len());
}

/// A request to step into an instruction that is not a call is an ordinary
/// step: at the start of an instruction in debug mode with matching depths,
/// the run never goes to the function's first line; it stops at the
/// instruction's own lines, or finishes where the instruction is not
/// recorded. Only a step into a call moves the top frame to the function's
/// first line.
pub proof fn law_step_into_only_calls(
    d: DebuggerView,
    function_index: u32,
    instruction_index: u32,
    paths: Seq<Seq<char>>,
    file: Seq<char>,
)
    requires
        d.is_debug_mode,
        d.debug_data.stack.len() >= 1,
        d.call_depth == (d.debug_data.stack.len() as u32),
        d.call_depth == d.cur_program_call_depth,
    ensures
        ({
            let (d2, stage, dir) = evaluate_instruction_view(d, function_index, instruction_index, EvalStage::Start, paths, file);
            let top = d2.debug_data.stack.last();
            &&& !d.is_call_instruction ==> stage != EvalStage::AfterStepInto
            &&& !d.is_call_instruction && !d.is_breakpoint_hit && instruction_index != u32::MAX ==> match lookup(
                d.debug_data.functions,
                function_index,
            ) {
                Some(f) => match lookup(f.instructions, instruction_index) {
                    Some(ins) => {
                        &&& stage == EvalStage::AfterInstruction
                        &&& top.current_line == ins.line_start
                        &&& top.line_end == ins.line_end
                        &&& dir == Directive { event: Some(DebugEvent::NextStep), wait: true }
                    },
                    None => stage == EvalStage::Finished,
                },
                None => stage == EvalStage::Finished,
            }
            &&& d.is_step_into && d.is_call_instruction ==> match lookup(d.debug_data.functions, function_index) {
                Some(f) => {
                    &&& stage == EvalStage::AfterStepInto
                    &&& top.current_line == f.line_start
                    &&& top.line_end == f.line_end
                    &&& dir == Directive { event: Some(DebugEvent::NextStep), wait: true }
                },
                None => stage != EvalStage::AfterStepInto,
            }
        }),
{
}

/// Outside debug mode the stack operations change nothing.
pub proof fn law_inert_outside_debug_mode(d: DebuggerView, line: u32, line_end: u32, id: u32, call_depth: u32)
    requires
        !d.is_debug_mode,
    ensures
        update_position_view(d, line, line_end) == d,
        set_self_reference_view(d, id) == d,
        add_to_stack_view(d, id) == d,
        pop_stack_view(d, call_depth) == d,
{
}

pub open spec fn stack_of(d: DebuggerView) -> Seq<FunctionView> {
    d.debug_data.stack
}

} // verus!
