//! How a snapshot of the debug data is laid out for the debug adapter: one
//! frame per function on the stack, each with a scope of local variables
//! and, where the function has any, a scope of arguments, and one numbered
//! batch of variables per scope and per variable with nested variables.
//! Nested batches are numbered in the order they are met and handed over
//! before the batch that refers to them.
use crate::debugdata::DebugData;
use crate::entries::lookup;
use crate::function::{count_variables, DebugFunction, FunctionView};
use crate::index_map::{
    functions_get_index, functions_len, instructions_get_index, instructions_len, variable_entries,
    variables_get,
};
use crate::instruction::DebugInstruction;
use crate::variable::{
    lemma_variables_view_index, lemma_variables_view_len, variables_view, DebugVariable,
    DebugVariableType, VariableView,
};
use indexmap::IndexMap;
use vstd::prelude::*;

verus! {

/// One variable as the adapter shows it; a nonzero reference names the batch
/// of its nested variables.
pub struct VariableEntry {
    pub name: String,
    pub type_: String,
    pub value: String,
    pub variables_reference: u32,
}

/// The variables shown under one reference.
pub struct VariableBatch {
    pub variables_reference: u32,
    pub variables: Vec<VariableEntry>,
}

pub struct Scope {
    pub name: String,
    pub presentation_hint: String,
    pub variables_reference: u32,
}

pub struct StackFrame {
    pub id: u32,
    pub name: String,
    pub file_path: String,
    pub line: u32,
    pub column: u32,
    pub scopes: Vec<Scope>,
}

/// The frames of a stack, the batches of variables they refer to, in the
/// order they are handed over, and the first reference left unused.
pub struct StackLayout {
    pub frames: Vec<StackFrame>,
    pub batches: Vec<VariableBatch>,
    pub next_reference: u32,
}

pub struct EntryView {
    pub name: Seq<char>,
    pub type_: Seq<char>,
    pub value: Seq<char>,
    pub variables_reference: int,
}

pub struct BatchView {
    pub variables_reference: int,
    pub variables: Seq<EntryView>,
}

pub struct ScopeView {
    pub name: Seq<char>,
    pub presentation_hint: Seq<char>,
    pub variables_reference: int,
}

pub struct FrameView {
    pub id: int,
    pub name: Seq<char>,
    pub file_path: Seq<char>,
    pub line: u32,
    pub column: u32,
    pub scopes: Seq<ScopeView>,
}

/// Entries listed for some variables, the batches nested in them, and the
/// last reference taken (or the one started from, where none was taken).
pub struct Listed {
    pub entries: Seq<EntryView>,
    pub batches: Seq<BatchView>,
    pub next: int,
}

pub struct LayoutView {
    pub frames: Seq<FrameView>,
    pub batches: Seq<BatchView>,
    pub next: int,
}

pub open spec fn entry_view(e: VariableEntry) -> EntryView {
    EntryView {
        name: e.name@,
        type_: e.type_@,
        value: e.value@,
        variables_reference: e.variables_reference as int,
    }
}

pub open spec fn entries_view(s: Seq<VariableEntry>) -> Seq<EntryView> {
    s.map_values(|e: VariableEntry| entry_view(e))
}

pub open spec fn batch_view(b: VariableBatch) -> BatchView {
    BatchView { variables_reference: b.variables_reference as int, variables: entries_view(b.variables@) }
}

pub open spec fn batches_view(s: Seq<VariableBatch>) -> Seq<BatchView> {
    s.map_values(|b: VariableBatch| batch_view(b))
}

pub open spec fn scope_view(s: Scope) -> ScopeView {
    ScopeView {
        name: s.name@,
        presentation_hint: s.presentation_hint@,
        variables_reference: s.variables_reference as int,
    }
}

pub open spec fn frame_view(f: StackFrame) -> FrameView {
    FrameView {
        id: f.id as int,
        name: f.name@,
        file_path: f.file_path@,
        line: f.line,
        column: f.column,
        scopes: f.scopes@.map_values(|s: Scope| scope_view(s)),
    }
}

impl View for StackLayout {
    type V = LayoutView;

    open spec fn view(&self) -> LayoutView {
        LayoutView {
            frames: self.frames@.map_values(|f: StackFrame| frame_view(f)),
            batches: batches_view(self.batches@),
            next: self.next_reference as int,
        }
    }
}

/// Every variable is shown with the type `u32`.
pub open spec fn type_text() -> Seq<char> {
    seq!['u', '3', '2']
}

pub open spec fn entry(v: VariableView, reference: int) -> EntryView {
    EntryView { name: v.name, type_: type_text(), value: v.value, variables_reference: reference }
}

/// The entries of `vars`, numbering after `last`: see `list_nested`.
pub open spec fn list_variables(vars: Seq<VariableView>, last: int) -> Listed
    decreases vars, 0int,
{
    if vars.len() == 0 {
        Listed { entries: Seq::empty(), batches: Seq::empty(), next: last }
    } else {
        let before = list_variables(vars.drop_last(), last);
        proof {
            assert(decreases_to!(vars => vars[vars.len() - 1]));
        }
        let n = list_nested(vars.last(), before.next);
        Listed {
            entries: before.entries.push(entry(vars.last(), n.reference)),
            batches: before.batches + n.batches,
            next: n.next,
        }
    }
}

/// What one variable adds, numbering after `last`: a variable with nested
/// variables takes the next number as its reference, and the batch of its
/// nested variables follows the batches nested in them.
pub struct Nested {
    pub reference: int,
    pub batches: Seq<BatchView>,
    pub next: int,
}

pub open spec fn list_nested(v: VariableView, last: int) -> Nested
    decreases v, 1int,
{
    if v.sub_variables.len() > 0 {
        proof {
            assert(decreases_to!(v => v.sub_variables));
        }
        let r = last + 1;
        let inner = list_variables(v.sub_variables, r);
        Nested {
            reference: r,
            batches: inner.batches.push(BatchView { variables_reference: r, variables: inner.entries }),
            next: inner.next,
        }
    } else {
        Nested { reference: 0, batches: Seq::empty(), next: last }
    }
}

/// The variables of `ids` that `vars` holds with the given flag, in order.
pub open spec fn declared(ids: Seq<u32>, vars: Seq<(u32, VariableView)>, is_argument: bool) -> Seq<VariableView>
    decreases ids.len(),
{
    if ids.len() == 0 {
        Seq::empty()
    } else {
        let before = declared(ids.drop_last(), vars, is_argument);
        match lookup(vars, ids.last()) {
            Some(v) => if v.is_argument == is_argument {
                before.push(v)
            } else {
                before
            },
            None => before,
        }
    }
}

pub open spec fn self_name() -> Seq<char> {
    seq!['s', 'e', 'l', 'f']
}

pub open spec fn circuit_text() -> Seq<char> {
    seq!['C', 'i', 'r', 'c', 'u', 'i', 't']
}

/// The `self` entry of a function of a circuit: it shows the members of
/// the circuit's variable, where there is one.
pub open spec fn self_variable(found: Option<VariableView>) -> VariableView {
    VariableView {
        name: self_name(),
        type_: DebugVariableType::Circuit,
        value: circuit_text(),
        circuit_id: 0,
        mutable: false,
        is_argument: false,
        const_: false,
        line_start: 0,
        line_end: 0,
        sub_variables: match found {
            Some(s) => s.sub_variables,
            None => Seq::empty(),
        },
    }
}

/// The variables of one scope of `f`: its declared variables with the
/// flag, and for the local scope of a function of a circuit, `self`.
pub open spec fn scope_variables(f: FunctionView, vars: Seq<(u32, VariableView)>, is_argument: bool) -> Seq<VariableView> {
    declared(f.variables, vars, is_argument) + if !is_argument && f.self_circuit_id != 0 {
        seq![self_variable(lookup(vars, f.self_circuit_id))]
    } else {
        Seq::empty()
    }
}

/// The batches of one scope, numbered from `reference`, whose own batch
/// comes last; `next` is the last reference taken.
pub open spec fn scope_batches(f: FunctionView, vars: Seq<(u32, VariableView)>, is_argument: bool, reference: int) -> Listed {
    let l = list_variables(scope_variables(f, vars, is_argument), reference);
    Listed {
        entries: l.entries,
        batches: l.batches.push(BatchView { variables_reference: reference, variables: l.entries }),
        next: l.next,
    }
}

pub open spec fn locals_scope(reference: int) -> ScopeView {
    ScopeView {
        name: seq!['V', 'a', 'r', 'i', 'a', 'b', 'l', 'e', 's'],
        presentation_hint: seq!['l', 'o', 'c', 'a', 'l', 's'],
        variables_reference: reference,
    }
}

pub open spec fn arguments_scope(reference: int) -> ScopeView {
    ScopeView {
        name: seq!['A', 'r', 'g', 'u', 'm', 'e', 'n', 't', 's'],
        presentation_hint: seq!['a', 'r', 'g', 'u', 'm', 'e', 'n', 't', 's'],
        variables_reference: reference,
    }
}

/// The frame of `f` with id `id`, its scopes numbered from `reference`:
/// the locals first, then the arguments, where `f` has any.
pub open spec fn frame_layout(f: FunctionView, vars: Seq<(u32, VariableView)>, id: int, reference: int) -> LayoutView {
    let locals = scope_batches(f, vars, false, reference);
    let args_reference = locals.next + 1;
    let frame = FrameView {
        id: id,
        name: f.name,
        file_path: f.file_path,
        line: f.current_line,
        column: 1,
        scopes: seq![locals_scope(reference)],
    };
    if count_variables(f.variables, vars, true) > 0 {
        let args = scope_batches(f, vars, true, args_reference);
        LayoutView {
            frames: seq![FrameView { scopes: frame.scopes.push(arguments_scope(args_reference)), ..frame }],
            batches: locals.batches + args.batches,
            next: args.next + 1,
        }
    } else {
        LayoutView { frames: seq![frame], batches: locals.batches, next: args_reference }
    }
}

/// The layout of `stack`: frames numbered from `first_id`, references
/// from `reference`; `next` is the first reference left unused.
pub open spec fn stack_layout(stack: Seq<FunctionView>, vars: Seq<(u32, VariableView)>, first_id: int, reference: int) -> LayoutView
    decreases stack.len(),
{
    if stack.len() == 0 {
        LayoutView { frames: Seq::empty(), batches: Seq::empty(), next: reference }
    } else {
        let before = stack_layout(stack.drop_last(), vars, first_id, reference);
        let frame = frame_layout(stack.last(), vars, first_id + stack.len() - 1, before.next);
        LayoutView { frames: before.frames + frame.frames, batches: before.batches + frame.batches, next: frame.next }
    }
}

/// Listing never takes a number below the one it starts after.
pub proof fn lemma_list_grows(vars: Seq<VariableView>, last: int)
    ensures
        list_variables(vars, last).next >= last,
    decreases vars, 0int,
{
    if vars.len() > 0 {
        lemma_list_grows(vars.drop_last(), last);
        assert(decreases_to!(vars => vars[vars.len() - 1]));
        lemma_nested_grows(vars.last(), list_variables(vars.drop_last(), last).next);
    }
}

pub proof fn lemma_nested_grows(v: VariableView, last: int)
    ensures
        list_nested(v, last).next >= last,
    decreases v, 1int,
{
    if v.sub_variables.len() > 0 {
        assert(decreases_to!(v => v.sub_variables));
        lemma_list_grows(v.sub_variables, last + 1);
    }
}

/// Listing more variables takes no fewer numbers.
pub proof fn lemma_list_prefix(vars: Seq<VariableView>, last: int, k: int)
    requires
        0 <= k <= vars.len(),
    ensures
        list_variables(vars, last).next >= list_variables(vars.take(k), last).next,
    decreases vars.len(),
{
    if k < vars.len() {
        lemma_list_prefix(vars.drop_last(), last, k);
        assert(vars.drop_last().take(k) =~= vars.take(k));
        lemma_nested_grows(vars.last(), list_variables(vars.drop_last(), last).next);
    } else {
        assert(vars.take(k) =~= vars);
    }
}

/// The variables declared in a prefix of `ids` come first among those
/// declared in `ids`.
pub proof fn lemma_declared_prefix(ids: Seq<u32>, vars: Seq<(u32, VariableView)>, is_argument: bool, j: int)
    requires
        0 <= j <= ids.len(),
    ensures
        declared(ids.take(j), vars, is_argument).len() <= declared(ids, vars, is_argument).len(),
        declared(ids, vars, is_argument).take(declared(ids.take(j), vars, is_argument).len() as int)
            == declared(ids.take(j), vars, is_argument),
    decreases ids.len(),
{
    let d = declared(ids, vars, is_argument);
    if j == ids.len() {
        assert(ids.take(j) =~= ids);
        assert(d.take(d.len() as int) =~= d);
    } else {
        lemma_declared_prefix(ids.drop_last(), vars, is_argument, j);
        assert(ids.drop_last().take(j) =~= ids.take(j));
        let dp = declared(ids.take(j), vars, is_argument);
        let dd = declared(ids.drop_last(), vars, is_argument);
        assert(d.take(dp.len() as int) =~= dd.take(dp.len() as int));
    }
}

pub proof fn lemma_scope_grows(f: FunctionView, vars: Seq<(u32, VariableView)>, is_argument: bool, reference: int)
    ensures
        scope_batches(f, vars, is_argument, reference).next >= reference,
{
    lemma_list_grows(scope_variables(f, vars, is_argument), reference);
}

pub proof fn lemma_frame_grows(f: FunctionView, vars: Seq<(u32, VariableView)>, id: int, reference: int)
    ensures
        frame_layout(f, vars, id, reference).next > scope_batches(f, vars, false, reference).next,
        scope_batches(f, vars, false, reference).next >= reference,
        frame_layout(f, vars, id, reference).frames.len() == 1,
{
    lemma_scope_grows(f, vars, false, reference);
    lemma_scope_grows(f, vars, true, scope_batches(f, vars, false, reference).next + 1);
}

/// Laying out more frames takes no fewer numbers.
pub proof fn lemma_stack_prefix(stack: Seq<FunctionView>, vars: Seq<(u32, VariableView)>, first_id: int, reference: int, k: int)
    requires
        0 <= k <= stack.len(),
    ensures
        stack_layout(stack, vars, first_id, reference).next >= stack_layout(stack.take(k), vars, first_id, reference).next,
        stack_layout(stack, vars, first_id, reference).next >= reference,
        stack_layout(stack, vars, first_id, reference).frames.len() == stack.len(),
    decreases stack.len(),
{
    if stack.len() > 0 {
        lemma_stack_prefix(stack.drop_last(), vars, first_id, reference, if k < stack.len() { k } else { 0 });
        let before = stack_layout(stack.drop_last(), vars, first_id, reference);
        lemma_frame_grows(stack.last(), vars, first_id + stack.len() - 1, before.next);
        if k < stack.len() {
            assert(stack.drop_last().take(k) =~= stack.take(k));
        }
    }
    assert(stack.take(stack.len() as int) =~= stack);
}


/// The references of `batches` are all different and lie between `lo` and
/// `hi`.
pub open spec fn references_within(batches: Seq<BatchView>, lo: int, hi: int) -> bool {
    &&& forall|i: int| 0 <= i < batches.len() ==> lo <= #[trigger] batches[i].variables_reference <= hi
    &&& forall|i: int, j: int|
        0 <= i < j < batches.len() ==> #[trigger] batches[i].variables_reference
            != #[trigger] batches[j].variables_reference
}

proof fn lemma_within_concat(a: Seq<BatchView>, b: Seq<BatchView>, lo: int, mid: int, hi: int)
    requires
        references_within(a, lo, mid),
        references_within(b, mid + 1, hi),
        lo <= mid + 1,
        mid <= hi,
    ensures
        references_within(a + b, lo, hi),
{
    let c = a + b;
    assert forall|i: int, j: int| 0 <= i < j < c.len() implies #[trigger] c[i].variables_reference
        != #[trigger] c[j].variables_reference by {
        if j < a.len() {
            assert(a[i].variables_reference != a[j].variables_reference);
        } else if i < a.len() {
            assert(a[i].variables_reference <= mid);
            assert(b[j - a.len()].variables_reference >= mid + 1);
        } else {
            assert(b[i - a.len()].variables_reference != b[j - a.len()].variables_reference);
        }
    }
    assert forall|i: int| 0 <= i < c.len() implies lo <= #[trigger] c[i].variables_reference <= hi by {
        if i < a.len() {
            assert(c[i] == a[i]);
            assert(lo <= a[i].variables_reference <= mid);
        } else {
            assert(c[i] == b[i - a.len()]);
            assert(mid + 1 <= b[i - a.len()].variables_reference <= hi);
        }
    }
}

proof fn lemma_within_push(a: Seq<BatchView>, b: BatchView, lo: int, hi: int)
    requires
        references_within(a, lo + 1, hi),
        b.variables_reference == lo,
        lo <= hi,
    ensures
        references_within(a.push(b), lo, hi),
{
    let c = a.push(b);
    assert forall|i: int, j: int| 0 <= i < j < c.len() implies #[trigger] c[i].variables_reference
        != #[trigger] c[j].variables_reference by {
        if j < a.len() {
            assert(a[i].variables_reference != a[j].variables_reference);
        } else {
            assert(a[i].variables_reference >= lo + 1);
        }
    }
    assert forall|i: int| 0 <= i < c.len() implies lo <= #[trigger] c[i].variables_reference <= hi by {
        if i < a.len() {
            assert(c[i] == a[i]);
            assert(lo + 1 <= a[i].variables_reference <= hi);
        } else {
            assert(c[i] == b);
        }
    }
}

proof fn lemma_list_references(vars: Seq<VariableView>, last: int)
    ensures
        references_within(list_variables(vars, last).batches, last + 1, list_variables(vars, last).next),
        list_variables(vars, last).next >= last,
    decreases vars, 0int,
{
    if vars.len() > 0 {
        lemma_list_references(vars.drop_last(), last);
        let before = list_variables(vars.drop_last(), last);
        assert(decreases_to!(vars => vars[vars.len() - 1]));
        lemma_nested_references(vars.last(), before.next);
        lemma_within_concat(
            before.batches,
            list_nested(vars.last(), before.next).batches,
            last + 1,
            before.next,
            list_nested(vars.last(), before.next).next,
        );
    }
}

proof fn lemma_nested_references(v: VariableView, last: int)
    ensures
        references_within(list_nested(v, last).batches, last + 1, list_nested(v, last).next),
        list_nested(v, last).next >= last,
    decreases v, 1int,
{
    if v.sub_variables.len() > 0 {
        assert(decreases_to!(v => v.sub_variables));
        let r = last + 1;
        lemma_list_references(v.sub_variables, r);
        let inner = list_variables(v.sub_variables, r);
        lemma_within_push(inner.batches, BatchView { variables_reference: r, variables: inner.entries }, r, inner.next);
    }
}

proof fn lemma_scope_references(f: FunctionView, vars: Seq<(u32, VariableView)>, is_argument: bool, reference: int)
    ensures
        references_within(scope_batches(f, vars, is_argument, reference).batches, reference, scope_batches(f, vars, is_argument, reference).next),
        scope_batches(f, vars, is_argument, reference).next >= reference,
{
    let l = list_variables(scope_variables(f, vars, is_argument), reference);
    lemma_list_references(scope_variables(f, vars, is_argument), reference);
    lemma_within_push(l.batches, BatchView { variables_reference: reference, variables: l.entries }, reference, l.next);
}

proof fn lemma_frame_references(f: FunctionView, vars: Seq<(u32, VariableView)>, id: int, reference: int)
    ensures
        references_within(frame_layout(f, vars, id, reference).batches, reference, frame_layout(f, vars, id, reference).next - 1),
        frame_layout(f, vars, id, reference).next > reference,
{
    lemma_scope_references(f, vars, false, reference);
    let locals = scope_batches(f, vars, false, reference);
    if count_variables(f.variables, vars, true) > 0 {
        lemma_scope_references(f, vars, true, locals.next + 1);
        let args = scope_batches(f, vars, true, locals.next + 1);
        lemma_within_concat(locals.batches, args.batches, reference, locals.next, args.next);
    }
}

/// Each batch of a stack's layout has a reference of its own, drawn from
/// the first reference up to, and not including, the next one left unused.
pub proof fn law_stack_references_distinct(stack: Seq<FunctionView>, vars: Seq<(u32, VariableView)>, first_id: int, reference: int)
    ensures
        references_within(
            stack_layout(stack, vars, first_id, reference).batches,
            reference,
            stack_layout(stack, vars, first_id, reference).next - 1,
        ),
        stack_layout(stack, vars, first_id, reference).next >= reference,
    decreases stack.len(),
{
    if stack.len() > 0 {
        law_stack_references_distinct(stack.drop_last(), vars, first_id, reference);
        let before = stack_layout(stack.drop_last(), vars, first_id, reference);
        lemma_frame_references(stack.last(), vars, first_id + stack.len() - 1, before.next);
        lemma_within_concat(
            before.batches,
            frame_layout(stack.last(), vars, first_id + stack.len() - 1, before.next).batches,
            reference,
            before.next - 1,
            frame_layout(stack.last(), vars, first_id + stack.len() - 1, before.next).next - 1,
        );
    }
}

proof fn lemma_list_entries_len(vars: Seq<VariableView>, last: int)
    ensures
        list_variables(vars, last).entries.len() == vars.len(),
    decreases vars.len(),
{
    if vars.len() > 0 {
        lemma_list_entries_len(vars.drop_last(), last);
    }
}

proof fn lemma_declared_len(ids: Seq<u32>, vars: Seq<(u32, VariableView)>, is_argument: bool)
    ensures
        declared(ids, vars, is_argument).len() == count_variables(ids, vars, is_argument),
    decreases ids.len(),
{
    if ids.len() > 0 {
        lemma_declared_len(ids.drop_last(), vars, is_argument);
    }
}


/// Some batch among the first `before` of `batches` has the reference.
pub open spec fn names_batch(batches: Seq<BatchView>, reference: int, before: int) -> bool {
    exists|k: int| 0 <= k < before && k < batches.len() && #[trigger] batches[k].variables_reference == reference
}

/// Every nonzero reference of `entries` names one of the first `before`
/// batches.
pub open spec fn entries_named(entries: Seq<EntryView>, batches: Seq<BatchView>, before: int) -> bool {
    forall|j: int|
        0 <= j < entries.len() && (#[trigger] entries[j]).variables_reference != 0 ==> names_batch(
            batches,
            entries[j].variables_reference,
            before,
        )
}

/// Every nonzero reference in a batch names a batch that comes before it.
pub open spec fn batches_named(batches: Seq<BatchView>) -> bool {
    forall|i: int| 0 <= i < batches.len() ==> entries_named((#[trigger] batches[i]).variables, batches, i)
}

proof fn lemma_entries_named_grow(entries: Seq<EntryView>, a: Seq<BatchView>, b: Seq<BatchView>, before: int, later: int)
    requires
        entries_named(entries, a, before),
        before <= later,
        before <= a.len(),
    ensures
        entries_named(entries, a + b, later),
{
    assert forall|j: int|
        0 <= j < entries.len() && (#[trigger] entries[j]).variables_reference != 0 implies names_batch(
            a + b,
            entries[j].variables_reference,
            later,
        ) by {
        let k = choose|k: int|
            0 <= k < before && k < a.len() && #[trigger] a[k].variables_reference == entries[j].variables_reference;
        assert((a + b)[k] == a[k]);
    }
}

proof fn lemma_entries_named_shift(entries: Seq<EntryView>, a: Seq<BatchView>, b: Seq<BatchView>, before: int)
    requires
        entries_named(entries, b, before),
    ensures
        entries_named(entries, a + b, a.len() + before),
{
    assert forall|j: int|
        0 <= j < entries.len() && (#[trigger] entries[j]).variables_reference != 0 implies names_batch(
            a + b,
            entries[j].variables_reference,
            a.len() + before,
        ) by {
        let k = choose|k: int|
            0 <= k < before && k < b.len() && #[trigger] b[k].variables_reference == entries[j].variables_reference;
        assert((a + b)[a.len() + k] == b[k]);
    }
}

proof fn lemma_named_concat(a: Seq<BatchView>, b: Seq<BatchView>)
    requires
        batches_named(a),
        batches_named(b),
    ensures
        batches_named(a + b),
{
    let c = a + b;
    assert forall|i: int| 0 <= i < c.len() implies entries_named((#[trigger] c[i]).variables, c, i) by {
        if i < a.len() {
            assert(c[i] == a[i]);
            lemma_entries_named_grow(a[i].variables, a, b, i, i);
        } else {
            assert(c[i] == b[i - a.len()]);
            lemma_entries_named_shift(b[i - a.len()].variables, a, b, i - a.len());
        }
    }
}

proof fn lemma_named_push(a: Seq<BatchView>, x: BatchView)
    requires
        batches_named(a),
        entries_named(x.variables, a, a.len() as int),
    ensures
        batches_named(a.push(x)),
{
    let c = a.push(x);
    assert(c == a + seq![x]);
    assert forall|i: int| 0 <= i < c.len() implies entries_named((#[trigger] c[i]).variables, c, i) by {
        if i < a.len() {
            assert(c[i] == a[i]);
            lemma_entries_named_grow(a[i].variables, a, seq![x], i, i);
        } else {
            assert(c[i] == x);
            lemma_entries_named_grow(x.variables, a, seq![x], a.len() as int, i);
        }
    }
}

proof fn lemma_list_named(vars: Seq<VariableView>, last: int)
    requires
        last >= 0,
    ensures
        batches_named(list_variables(vars, last).batches),
        entries_named(
            list_variables(vars, last).entries,
            list_variables(vars, last).batches,
            list_variables(vars, last).batches.len() as int,
        ),
    decreases vars, 0int,
{
    if vars.len() > 0 {
        lemma_list_named(vars.drop_last(), last);
        let before = list_variables(vars.drop_last(), last);
        lemma_list_grows(vars.drop_last(), last);
        assert(decreases_to!(vars => vars[vars.len() - 1]));
        let v = vars.last();
        lemma_nested_named(v, before.next);
        let n = list_nested(v, before.next);
        let l = list_variables(vars, last);
        lemma_named_concat(before.batches, n.batches);
        lemma_entries_named_grow(before.entries, before.batches, n.batches, before.batches.len() as int, l.batches.len() as int);
        let e = entry(v, n.reference);
        assert(l.entries == before.entries.push(e));
        assert forall|j: int|
            0 <= j < l.entries.len() && (#[trigger] l.entries[j]).variables_reference != 0 implies names_batch(
                l.batches,
                l.entries[j].variables_reference,
                l.batches.len() as int,
            ) by {
            if j < before.entries.len() {
                assert(l.entries[j] == before.entries[j]);
            } else {
                assert(l.entries[j] == e);
                let k = before.batches.len() + n.batches.len() - 1;
                assert(l.batches[k] == n.batches[n.batches.len() - 1]);
            }
        }
    }
}

proof fn lemma_nested_named(v: VariableView, last: int)
    requires
        last >= 0,
    ensures
        batches_named(list_nested(v, last).batches),
        list_nested(v, last).reference != 0 ==> list_nested(v, last).batches.len() > 0
            && list_nested(v, last).batches.last().variables_reference == list_nested(v, last).reference,
    decreases v, 1int,
{
    if v.sub_variables.len() > 0 {
        assert(decreases_to!(v => v.sub_variables));
        lemma_list_named(v.sub_variables, last + 1);
        let inner = list_variables(v.sub_variables, last + 1);
        lemma_named_push(inner.batches, BatchView { variables_reference: last + 1, variables: inner.entries });
    }
}

proof fn lemma_scope_named(f: FunctionView, vars: Seq<(u32, VariableView)>, is_argument: bool, reference: int)
    requires
        reference >= 0,
    ensures
        batches_named(scope_batches(f, vars, is_argument, reference).batches),
{
    let l = list_variables(scope_variables(f, vars, is_argument), reference);
    lemma_list_named(scope_variables(f, vars, is_argument), reference);
    lemma_named_push(l.batches, BatchView { variables_reference: reference, variables: l.entries });
}

/// The adapter can resolve every reference when it meets it: each nonzero
/// reference in a batch of a stack's layout names a batch handed over
/// before that one.
pub proof fn law_references_resolved(stack: Seq<FunctionView>, vars: Seq<(u32, VariableView)>, first_id: int, reference: int)
    requires
        reference >= 0,
    ensures
        batches_named(stack_layout(stack, vars, first_id, reference).batches),
    decreases stack.len(),
{
    if stack.len() > 0 {
        law_references_resolved(stack.drop_last(), vars, first_id, reference);
        let before = stack_layout(stack.drop_last(), vars, first_id, reference);
        lemma_stack_prefix(stack.drop_last(), vars, first_id, reference, 0);
        let f = stack.last();
        lemma_scope_named(f, vars, false, before.next);
        let locals = scope_batches(f, vars, false, before.next);
        lemma_scope_grows(f, vars, false, before.next);
        if count_variables(f.variables, vars, true) > 0 {
            lemma_scope_named(f, vars, true, locals.next + 1);
            lemma_named_concat(locals.batches, scope_batches(f, vars, true, locals.next + 1).batches);
        }
        lemma_named_concat(
            before.batches,
            frame_layout(f, vars, first_id + stack.len() - 1, before.next).batches,
        );
    }
}


/// Every scope of `frames` names one of `batches`.
pub open spec fn scopes_named(frames: Seq<FrameView>, batches: Seq<BatchView>) -> bool {
    forall|i: int, j: int|
        0 <= i < frames.len() && 0 <= j < frames[i].scopes.len() ==> names_batch(
            batches,
            (#[trigger] frames[i].scopes[j]).variables_reference,
            batches.len() as int,
        )
}

proof fn lemma_frame_scopes_named(f: FunctionView, vars: Seq<(u32, VariableView)>, id: int, reference: int)
    ensures
        scopes_named(frame_layout(f, vars, id, reference).frames, frame_layout(f, vars, id, reference).batches),
{
    let fl = frame_layout(f, vars, id, reference);
    let locals = scope_batches(f, vars, false, reference);
    let k0 = locals.batches.len() - 1;
    assert(locals.batches[k0].variables_reference == reference);
    if count_variables(f.variables, vars, true) > 0 {
        let args = scope_batches(f, vars, true, locals.next + 1);
        let k1 = locals.batches.len() + args.batches.len() - 1;
        assert(fl.batches[k0] == locals.batches[k0]);
        assert(fl.batches[k1] == args.batches[args.batches.len() - 1]);
        assert forall|i: int, j: int|
            0 <= i < fl.frames.len() && 0 <= j < fl.frames[i].scopes.len() implies names_batch(
                fl.batches,
                (#[trigger] fl.frames[i].scopes[j]).variables_reference,
                fl.batches.len() as int,
            ) by {
            assert(i == 0);
            if j == 0 {
                assert(fl.frames[i].scopes[j].variables_reference == fl.batches[k0].variables_reference);
            } else {
                assert(fl.frames[i].scopes[j].variables_reference == fl.batches[k1].variables_reference);
            }
        }
    } else {
        assert forall|i: int, j: int|
            0 <= i < fl.frames.len() && 0 <= j < fl.frames[i].scopes.len() implies names_batch(
                fl.batches,
                (#[trigger] fl.frames[i].scopes[j]).variables_reference,
                fl.batches.len() as int,
            ) by {
            assert(fl.frames[i].scopes[j].variables_reference == fl.batches[k0].variables_reference);
        }
    }
}

/// Every scope of every frame of a stack's layout names a batch of the
/// layout.
pub proof fn law_scopes_resolved(stack: Seq<FunctionView>, vars: Seq<(u32, VariableView)>, first_id: int, reference: int)
    ensures
        scopes_named(
            stack_layout(stack, vars, first_id, reference).frames,
            stack_layout(stack, vars, first_id, reference).batches,
        ),
    decreases stack.len(),
{
    let l = stack_layout(stack, vars, first_id, reference);
    if stack.len() > 0 {
        law_scopes_resolved(stack.drop_last(), vars, first_id, reference);
        let before = stack_layout(stack.drop_last(), vars, first_id, reference);
        let f = stack.last();
        let fl = frame_layout(f, vars, first_id + stack.len() - 1, before.next);
        lemma_frame_scopes_named(f, vars, first_id + stack.len() - 1, before.next);
        lemma_frame_grows(f, vars, first_id + stack.len() - 1, before.next);
        assert forall|i: int, j: int|
            0 <= i < l.frames.len() && 0 <= j < l.frames[i].scopes.len() implies names_batch(
                l.batches,
                (#[trigger] l.frames[i].scopes[j]).variables_reference,
                l.batches.len() as int,
            ) by {
            if i < before.frames.len() {
                assert(l.frames[i] == before.frames[i]);
                let r = before.frames[i].scopes[j].variables_reference;
                assert(names_batch(before.batches, r, before.batches.len() as int));
                let k = choose|k: int|
                    0 <= k < before.batches.len() && k < before.batches.len() && #[trigger] before.batches[k].variables_reference == r;
                assert(l.batches[k] == before.batches[k]);
            } else {
                let i2 = i - before.frames.len();
                assert(l.frames[i] == fl.frames[i2]);
                let r = fl.frames[i2].scopes[j].variables_reference;
                assert(names_batch(fl.batches, r, fl.batches.len() as int));
                let k = choose|k: int|
                    0 <= k < fl.batches.len() && k < fl.batches.len() && #[trigger] fl.batches[k].variables_reference == r;
                assert(l.batches[before.batches.len() + k] == fl.batches[k]);
            }
        }
    }
}

/// A scope lists exactly as many variables as `get_variables_count` counts
/// for it, and one more, `self`, in the local scope of a function of a
/// circuit.
pub proof fn law_scope_size(f: FunctionView, vars: Seq<(u32, VariableView)>, is_argument: bool, reference: int)
    ensures
        scope_batches(f, vars, is_argument, reference).entries.len() == count_variables(f.variables, vars, is_argument)
            + if !is_argument && f.self_circuit_id != 0 {
            1int
        } else {
            0int
        },
{
    lemma_list_entries_len(scope_variables(f, vars, is_argument), reference);
    lemma_declared_len(f.variables, vars, is_argument);
}

pub fn type_string() -> (s: String)
    ensures
        s@ == type_text(),
{
    proof {
        reveal_strlit("u32");
    }
    String::from_str("u32")
}

fn make_entry(v: &DebugVariable, reference: u32) -> (e: VariableEntry)
    ensures
        entry_view(e) == entry(v@, reference as int),
{
    VariableEntry { name: v.name.clone(), type_: type_string(), value: v.value.clone(), variables_reference: reference }
}

/// Adds the entry of `v` to `entries`, numbering after `last` (see
/// `list_nested`), hands its nested batches to `batches` and gives back the
/// last reference taken; none where a reference would not fit in 32 bits.
fn list_one(v: &DebugVariable, last: u32, entries: &mut Vec<VariableEntry>, batches: &mut Vec<VariableBatch>) -> (r: Option<u32>)
    ensures
        match r {
            Some(next) => {
                let n = list_nested(v@, last as int);
                &&& entries_view(final(entries)@) == entries_view(old(entries)@).push(entry(v@, n.reference))
                &&& batches_view(final(batches)@) == batches_view(old(batches)@) + n.batches
                &&& next == n.next
            },
            None => list_nested(v@, last as int).next > u32::MAX,
        },
    decreases v, 1int,
{
    if v.sub_variables.len() > 0 {
        proof {
            lemma_variables_view_len(v.sub_variables@);
        }
        let reference = match last.checked_add(1) {
            Some(r) => r,
            None => {
                proof {
                    lemma_list_grows(v@.sub_variables, last + 1);
                }
                return None;
            },
        };
        proof {
            assert(decreases_to!(*v => v.sub_variables));
        }
        match list_sub_variables(&v.sub_variables, reference, batches) {
            Some((inner, next)) => {
                let ghost before_push = batches_view(batches@);
                batches.push(VariableBatch { variables_reference: reference, variables: inner });
                proof {
                    assert(batches_view(batches@) =~= before_push.push(batch_view(batches@[batches@.len() - 1])));
                }
                push_entry(entries, make_entry(v, reference));
                Some(next)
            },
            None => None,
        }
    } else {
        push_entry(entries, make_entry(v, 0));
        Some(last)
    }
}

fn push_entry(entries: &mut Vec<VariableEntry>, e: VariableEntry)
    ensures
        entries_view(final(entries)@) == entries_view(old(entries)@).push(entry_view(e)),
{
    let ghost before = entries@;
    entries.push(e);
    assert(entries_view(entries@) =~= entries_view(before).push(entry_view(e)));
}

/// Lists `vars` after the reference `last` (see `list_variables`), hands the
/// nested batches to `batches` and gives back the entries and the last
/// reference taken; none where a reference would not fit in 32 bits.
fn list_sub_variables(vars: &Vec<DebugVariable>, last: u32, batches: &mut Vec<VariableBatch>) -> (r: Option<(Vec<VariableEntry>, u32)>)
    ensures
        match r {
            Some((entries, next)) => {
                let l = list_variables(variables_view(vars@), last as int);
                &&& entries_view(entries@) == l.entries
                &&& batches_view(final(batches)@) == batches_view(old(batches)@) + l.batches
                &&& next == l.next
            },
            None => list_variables(variables_view(vars@), last as int).next > u32::MAX,
        },
    decreases vars, 0int,
{
    let ghost view = variables_view(vars@);
    let ghost b0 = batches_view(batches@);
    proof {
        lemma_variables_view_len(vars@);
    }
    let mut entries: Vec<VariableEntry> = Vec::new();
    let mut next = last;
    let mut k: usize = 0;
    while k < vars.len()
        invariant
            view == variables_view(vars@),
            view.len() == vars@.len(),
            k <= vars@.len(),
            entries_view(entries@) == list_variables(view.take(k as int), last as int).entries,
            batches_view(batches@) == b0 + list_variables(view.take(k as int), last as int).batches,
            next == list_variables(view.take(k as int), last as int).next,
        decreases vars@.len() - k,
    {
        let ghost prefix = view.take(k as int);
        let ghost grown = view.take(k + 1);
        proof {
            lemma_variables_view_index(vars@, k as int);
            assert(grown.drop_last() =~= prefix);
            assert(grown.last() == vars@[k as int]@);
            assert(decreases_to!(*vars => vars@));
            assert(decreases_to!(vars@ => vars@[k as int]));
        }
        let ghost before_batches = batches_view(batches@);
        match list_one(&vars[k], next, &mut entries, batches) {
            Some(n) => {
                proof {
                    assert(batches_view(batches@) =~= b0 + list_variables(grown, last as int).batches);
                }
                next = n;
            },
            None => {
                proof {
                    lemma_list_prefix(view, last as int, k + 1);
                }
                return None;
            },
        }
        k = k + 1;
    }
    proof {
        assert(view.take(vars@.len() as int) =~= view);
    }
    Some((entries, next))
}


fn self_entry(reference: u32) -> (e: VariableEntry)
    ensures
        entry_view(e) == (EntryView {
            name: self_name(),
            type_: type_text(),
            value: circuit_text(),
            variables_reference: reference as int,
        }),
{
    proof {
        reveal_strlit("self");
        reveal_strlit("Circuit");
    }
    let name = String::from_str("self");
    let value = String::from_str("Circuit");
    assert(name@ =~= self_name());
    assert(value@ =~= circuit_text());
    VariableEntry { name, type_: type_string(), value, variables_reference: reference }
}

/// The batches of one scope of `func` (see `scope_batches`), numbered from
/// `variables_reference` and handed to `batches`; gives back the last
/// reference taken, or none where a reference would not fit in 32 bits.
pub fn generate_variables(
    variables: &IndexMap<u32, DebugVariable>,
    func: &DebugFunction,
    is_argument: bool,
    variables_reference: u32,
    batches: &mut Vec<VariableBatch>,
) -> (r: Option<u32>)
    ensures
        match r {
            Some(next) => {
                let l = scope_batches(func@, variable_entries(*variables), is_argument, variables_reference as int);
                &&& batches_view(final(batches)@) == batches_view(old(batches)@) + l.batches
                &&& next == l.next
            },
            None => scope_batches(func@, variable_entries(*variables), is_argument, variables_reference as int).next
                > u32::MAX,
        },
{
    let ghost vars = variable_entries(*variables);
    let ghost ids = func.variables@;
    let ghost b0 = batches_view(batches@);
    let ghost last = variables_reference as int;
    let ghost all = scope_variables(func@, vars, is_argument);
    let mut entries: Vec<VariableEntry> = Vec::new();
    let mut next = variables_reference;
    let mut k: usize = 0;
    while k < func.variables.len()
        invariant
            vars == variable_entries(*variables),
            ids == func.variables@,
            last == variables_reference as int,
            all == scope_variables(func@, vars, is_argument),
            k <= ids.len(),
            entries_view(entries@) == list_variables(declared(ids.take(k as int), vars, is_argument), last).entries,
            batches_view(batches@) == b0 + list_variables(declared(ids.take(k as int), vars, is_argument), last).batches,
            next == list_variables(declared(ids.take(k as int), vars, is_argument), last).next,
        decreases ids.len() - k,
    {
        let id = func.variables[k];
        let ghost d = declared(ids.take(k as int), vars, is_argument);
        proof {
            assert(ids.take(k + 1).drop_last() =~= ids.take(k as int));
        }
        match variables_get(variables, id) {
            Some(v) => {
                if v.is_argument == is_argument {
                    proof {
                        assert(d.push(v@).drop_last() =~= d);
                    }
                    match list_one(v, next, &mut entries, batches) {
                        Some(n) => {
                            proof {
                                assert(batches_view(batches@) =~= b0 + list_variables(d.push(v@), last).batches);
                            }
                            next = n;
                        },
                        None => {
                            proof {
                                lemma_declared_prefix(ids, vars, is_argument, k + 1);
                                let dk = declared(ids.take(k + 1), vars, is_argument);
                                assert(all.take(dk.len() as int) =~= dk);
                                lemma_list_prefix(all, last, dk.len() as int);
                            }
                            return None;
                        },
                    }
                }
            },
            None => {},
        }
        k = k + 1;
    }
    let ghost d_all = declared(ids, vars, is_argument);
    proof {
        assert(ids.take(ids.len() as int) =~= ids);
    }
    if !is_argument && func.self_circuit_id != 0 {
        let ghost sv = self_variable(lookup(vars, func.self_circuit_id));
        let ghost l_d = list_variables(d_all, last);
        proof {
            assert(all.drop_last() =~= d_all);
            assert(all.last() == sv);
            let nn = list_nested(sv, l_d.next);
            assert(list_variables(all, last) == Listed {
                entries: l_d.entries.push(entry(sv, nn.reference)),
                batches: l_d.batches + nn.batches,
                next: nn.next,
            });
        }
        let mut reference: u32 = 0;
        match variables_get(variables, func.self_circuit_id) {
            Some(s) => {
                proof {
                    lemma_variables_view_len(s.sub_variables@);
                }
                if s.sub_variables.len() > 0 {
                    reference = match next.checked_add(1) {
                        Some(r) => r,
                        None => {
                            proof {
                                lemma_list_grows(sv.sub_variables, next + 1);
                            }
                            return None;
                        },
                    };
                    match list_sub_variables(&s.sub_variables, reference, batches) {
                        Some((inner, n)) => {
                            let ghost before_push = batches_view(batches@);
                            batches.push(VariableBatch { variables_reference: reference, variables: inner });
                            proof {
                                assert(batches_view(batches@) =~= before_push.push(
                                    batch_view(batches@[batches@.len() - 1]),
                                ));
                            }
                            next = n;
                        },
                        None => {
                            return None;
                        },
                    }
                }
            },
            None => {},
        }
        push_entry(&mut entries, self_entry(reference));
        proof {
            assert(batches_view(batches@) =~= b0 + list_variables(all, last).batches);
        }
    } else {
        proof {
            assert(all =~= d_all);
        }
    }
    let ghost before_push = batches_view(batches@);
    batches.push(VariableBatch { variables_reference, variables: entries });
    proof {
        assert(batches_view(batches@) =~= before_push.push(batch_view(batches@[batches@.len() - 1])));
    }
    Some(next)
}

/// Whether any of the declared variables of `func` that `variables` holds
/// is an argument.
fn has_arguments(variables: &IndexMap<u32, DebugVariable>, func: &DebugFunction) -> (r: bool)
    ensures
        r == (count_variables(func.variables@, variable_entries(*variables), true) > 0),
{
    let ghost vars = variable_entries(*variables);
    let ghost ids = func.variables@;
    let mut k: usize = 0;
    while k < func.variables.len()
        invariant
            vars == variable_entries(*variables),
            ids == func.variables@,
            k <= ids.len(),
            count_variables(ids.take(k as int), vars, true) == 0,
        decreases ids.len() - k,
    {
        proof {
            assert(ids.take(k + 1).drop_last() =~= ids.take(k as int));
        }
        match variables_get(variables, func.variables[k]) {
            Some(v) => {
                if v.is_argument {
                    proof {
                        lemma_count_prefix(ids, vars, k + 1);
                    }
                    return true;
                }
            },
            None => {},
        }
        k = k + 1;
    }
    proof {
        assert(ids.take(ids.len() as int) =~= ids);
    }
    false
}

proof fn lemma_count_prefix(ids: Seq<u32>, vars: Seq<(u32, VariableView)>, k: int)
    requires
        0 <= k <= ids.len(),
    ensures
        count_variables(ids, vars, true) >= count_variables(ids.take(k), vars, true),
    decreases ids.len(),
{
    if k < ids.len() {
        lemma_count_prefix(ids.drop_last(), vars, k);
        assert(ids.drop_last().take(k) =~= ids.take(k));
    } else {
        assert(ids.take(k) =~= ids);
    }
}

fn locals(reference: u32) -> (s: Scope)
    ensures
        scope_view(s) == locals_scope(reference as int),
{
    proof {
        reveal_strlit("Variables");
        reveal_strlit("locals");
    }
    let name = String::from_str("Variables");
    let presentation_hint = String::from_str("locals");
    assert(name@ =~= locals_scope(0).name);
    assert(presentation_hint@ =~= locals_scope(0).presentation_hint);
    Scope { name, presentation_hint, variables_reference: reference }
}

fn arguments(reference: u32) -> (s: Scope)
    ensures
        scope_view(s) == arguments_scope(reference as int),
{
    proof {
        reveal_strlit("Arguments");
        reveal_strlit("arguments");
    }
    let name = String::from_str("Arguments");
    let presentation_hint = String::from_str("arguments");
    assert(name@ =~= arguments_scope(0).name);
    assert(presentation_hint@ =~= arguments_scope(0).presentation_hint);
    Scope { name, presentation_hint, variables_reference: reference }
}

/// The layout of the stack of `data` (see `stack_layout`): frames numbered
/// from `first_frame_id`, references from `first_reference`. None where a
/// frame id or a reference would not fit in 32 bits.
pub fn stack_frames(data: &DebugData, first_frame_id: u32, first_reference: u32) -> (r: Option<StackLayout>)
    ensures
        r is Some <==> (stack_layout(data@.stack, data@.variables, first_frame_id as int, first_reference as int).next
            <= u32::MAX && first_frame_id + data@.stack.len() <= u32::MAX),
        r matches Some(l) ==> l@ == stack_layout(
            data@.stack,
            data@.variables,
            first_frame_id as int,
            first_reference as int,
        ),
{
    let ghost vars = data@.variables;
    let ghost stack = data@.stack;
    let ghost first = first_frame_id as int;
    let ghost reference0 = first_reference as int;
    let mut frames: Vec<StackFrame> = Vec::new();
    let mut batches: Vec<VariableBatch> = Vec::new();
    let mut reference = first_reference;
    let mut frame_id = first_frame_id;
    let mut k: usize = 0;
    proof {
        assert(stack.len() == data.stack@.len());
    }
    while k < data.stack.len()
        invariant
            vars == data@.variables,
            stack == data@.stack,
            stack.len() == data.stack@.len(),
            first == first_frame_id as int,
            reference0 == first_reference as int,
            k <= stack.len(),
            frame_id == first + k,
            frames@.map_values(|f: StackFrame| frame_view(f)) == stack_layout(stack.take(k as int), vars, first, reference0).frames,
            batches_view(batches@) == stack_layout(stack.take(k as int), vars, first, reference0).batches,
            reference == stack_layout(stack.take(k as int), vars, first, reference0).next,
        decreases stack.len() - k,
    {
        let func = &data.stack[k];
        let ghost f = stack[k as int];
        let ghost before = stack_layout(stack.take(k as int), vars, first, reference0);
        let ghost grown = stack.take(k + 1);
        proof {
            assert(f == data.stack@[k as int]@);
            assert(grown.drop_last() =~= stack.take(k as int));
            assert(grown.last() == f);
            lemma_frame_grows(f, vars, first + k, reference as int);
        }
        let ghost b_before = batches_view(batches@);
        let locals_end = match generate_variables(&data.variables, func, false, reference, &mut batches) {
            Some(n) => n,
            None => {
                proof {
                    lemma_stack_prefix(stack, vars, first, reference0, k + 1);
                }
                return None;
            },
        };
        let mut scopes: Vec<Scope> = Vec::new();
        scopes.push(locals(reference));
        let ghost scopes1 = scopes@.map_values(|s: Scope| scope_view(s));
        assert(scopes1 =~= seq![locals_scope(reference as int)]);
        let args_reference = match locals_end.checked_add(1) {
            Some(n) => n,
            None => {
                proof {
                    lemma_stack_prefix(stack, vars, first, reference0, k + 1);
                }
                return None;
            },
        };
        let mut next = args_reference;
        if has_arguments(&data.variables, func) {
            let args_end = match generate_variables(&data.variables, func, true, args_reference, &mut batches) {
                Some(n) => n,
                None => {
                    proof {
                        lemma_stack_prefix(stack, vars, first, reference0, k + 1);
                    }
                    return None;
                },
            };
            scopes.push(arguments(args_reference));
            assert(scopes@.map_values(|s: Scope| scope_view(s)) =~= scopes1.push(arguments_scope(args_reference as int)));
            next = match args_end.checked_add(1) {
                Some(n) => n,
                None => {
                    proof {
                        lemma_stack_prefix(stack, vars, first, reference0, k + 1);
                    }
                    return None;
                },
            };
        }
        let frame = StackFrame {
            id: frame_id,
            name: func.name.clone(),
            file_path: func.file_path.clone(),
            line: func.current_line,
            column: 1,
            scopes,
        };
        let ghost frames_before = frames@.map_values(|f: StackFrame| frame_view(f));
        frames.push(frame);
        proof {
            let fl = frame_layout(f, vars, first + k, before.next);
            assert(frame_view(frame).scopes =~= fl.frames[0].scopes);
            assert(frame_view(frame) == fl.frames[0]);
            assert(frames@.map_values(|f: StackFrame| frame_view(f)) =~= frames_before.push(frame_view(frame)));
            assert(fl.frames =~= seq![fl.frames[0]]);
            assert(batches_view(batches@) =~= before.batches + fl.batches);
        }
        reference = next;
        frame_id = match frame_id.checked_add(1) {
            Some(n) => n,
            None => {
                return None;
            },
        };
        k = k + 1;
    }
    proof {
        assert(stack.take(stack.len() as int) =~= stack);
    }
    Some(StackLayout { frames, batches, next_reference: reference })
}


/// The first lines of the instructions of every function, function by
/// function in the order of the map, and within one function in the order
/// of its instructions: the lines where a breakpoint can stand.
pub open spec fn instruction_lines(functions: Seq<(u32, FunctionView)>) -> Seq<u32>
    decreases functions.len(),
{
    if functions.len() == 0 {
        Seq::empty()
    } else {
        instruction_lines(functions.drop_last()) + first_lines(functions.last().1.instructions)
    }
}

pub open spec fn first_lines(instructions: Seq<(u32, DebugInstruction)>) -> Seq<u32> {
    instructions.map_values(|e: (u32, DebugInstruction)| e.1.line_start)
}

/// The lines where a breakpoint can stand: see `instruction_lines`.
pub fn breakpoint_lines(data: &DebugData) -> (r: Vec<u32>)
    ensures
        r@ == instruction_lines(data@.functions),
{
    let ghost functions = data@.functions;
    let mut lines: Vec<u32> = Vec::new();
    let n = functions_len(&data.functions);
    let mut i: usize = 0;
    while i < n
        invariant
            functions == data@.functions,
            n == functions.len(),
            i <= n,
            lines@ == instruction_lines(functions.take(i as int)),
        decreases n - i,
    {
        let (_, func) = functions_get_index(&data.functions, i).unwrap();
        let ghost before = lines@;
        let ghost instructions = func@.instructions;
        let m = instructions_len(&func.instructions);
        let mut j: usize = 0;
        while j < m
            invariant
                instructions == func@.instructions,
                m == instructions.len(),
                j <= m,
                lines@ == before + first_lines(instructions.take(j as int)),
            decreases m - j,
        {
            let (_, instruction) = instructions_get_index(&func.instructions, j).unwrap();
            lines.push(instruction.line_start);
            assert(first_lines(instructions.take(j + 1)) =~= first_lines(instructions.take(j as int)).push(
                instruction.line_start,
            ));
            assert(lines@ =~= before + first_lines(instructions.take(j + 1)));
            j = j + 1;
        }
        proof {
            assert(instructions.take(m as int) =~= instructions);
            assert(functions.take(i + 1).drop_last() =~= functions.take(i as int));
        }
        i = i + 1;
    }
    assert(functions.take(n as int) =~= functions);
    lines
}

} // verus!
