//! The machine that performs a plan, and the proof that it can.
//!
//! A step can be performed only in a state that has what the step needs: a
//! block needs a function to be appended to, a store needs a slot and a
//! value, a call needs its function. The plans that generation gives are
//! such that every step finds what it needs.
use vstd::prelude::*;
use crate::analyse::scope::Levels;
use crate::codegen::{
    block_name, emitted_after_func, emitted_after_items, emitted_after_plan,
    emitted_after_plans, item_id, planned_expr, planned_func, planned_item, planned_items,
    planned_mod, planned_statement, planned_statements, scope_after_plans, EmittedView, StepView,
};
use crate::tree::{DefId, ExprView, ItemView, Location, MethodView};

verus! {

/// What the machine has while it performs a plan.
pub struct Machine {
    /// The functions that were added.
    pub functions: Set<DefId>,
    /// The locals that have a slot.
    pub slots: Set<Location>,
    /// There is a current function.
    pub function: bool,
    /// A block was appended.
    pub block: bool,
    /// The emission stands at the end of a block.
    pub positioned: bool,
    /// There is a value.
    pub value: bool,
}

/// The machine before the first step.
pub open spec fn start() -> Machine {
    Machine {
        functions: Set::empty(),
        slots: Set::empty(),
        function: false,
        block: false,
        positioned: false,
        value: false,
    }
}

/// The machine has what the step needs.
pub open spec fn can_perform(step: StepView, machine: Machine) -> bool {
    match step {
        StepView::AddFunction { .. } => true,
        StepView::AppendBlock { .. } => machine.function,
        StepView::Branch => machine.block && machine.positioned,
        StepView::PositionAtEnd => machine.block,
        StepView::Const { .. } => true,
        StepView::Alloca { .. } => machine.positioned,
        StepView::Store { local } => machine.positioned && machine.value && machine.slots.contains(
            local,
        ),
        StepView::Load { local } => machine.positioned && machine.slots.contains(local),
        StepView::Call { function, .. } => machine.positioned && machine.functions.contains(
            function,
        ),
        StepView::Return => machine.positioned && machine.value,
    }
}

/// The machine after the step.
pub open spec fn performed(step: StepView, machine: Machine) -> Machine {
    match step {
        StepView::AddFunction { id, .. } => Machine {
            functions: machine.functions.insert(id),
            function: true,
            ..machine
        },
        StepView::AppendBlock { .. } => Machine { block: true, ..machine },
        StepView::PositionAtEnd => Machine { positioned: true, ..machine },
        StepView::Alloca { local, .. } => Machine {
            slots: machine.slots.insert(local),
            ..machine
        },
        StepView::Const { .. } | StepView::Load { .. } | StepView::Call { .. } => Machine {
            value: true,
            ..machine
        },
        StepView::Branch | StepView::Store { .. } | StepView::Return => machine,
    }
}

/// The machine after the steps, first to last.
pub open spec fn ran(steps: Seq<StepView>, machine: Machine) -> Machine
    decreases steps.len(),
{
    if steps.len() == 0 {
        machine
    } else {
        performed(steps.last(), ran(steps.drop_last(), machine))
    }
}

/// Each of the steps finds, when its turn comes, what it needs.
pub open spec fn can_run(steps: Seq<StepView>, machine: Machine) -> bool
    decreases steps.len(),
{
    if steps.len() == 0 {
        true
    } else {
        can_run(steps.drop_last(), machine) && can_perform(
            steps.last(),
            ran(steps.drop_last(), machine),
        )
    }
}

/// The machine has at least the functions and the slots of an emission.
pub open spec fn holds(machine: Machine, emitted: EmittedView) -> bool {
    &&& forall|id: DefId| emitted.functions.contains(id) ==> machine.functions.contains(id)
    &&& forall|local: Location| emitted.locals.contains(local) ==> machine.slots.contains(local)
}

/// A step changes at most what it makes: functions and slots are only added,
/// and what was there stays.
pub open spec fn grown(before: Machine, after: Machine) -> bool {
    &&& before.functions.subset_of(after.functions)
    &&& before.slots.subset_of(after.slots)
    &&& before.function ==> after.function
    &&& before.block ==> after.block
    &&& before.positioned ==> after.positioned
    &&& before.value ==> after.value
}

/// Running one run of steps after another is running the two in a row.
pub proof fn lemma_run_concat(first: Seq<StepView>, second: Seq<StepView>, machine: Machine)
    ensures
        ran(first + second, machine) == ran(second, ran(first, machine)),
        can_run(first + second, machine) == (can_run(first, machine) && can_run(
            second,
            ran(first, machine),
        )),
    decreases second.len(),
{
    if second.len() == 0 {
        assert(first + second =~= first);
    } else {
        lemma_run_concat(first, second.drop_last(), machine);
        assert((first + second).drop_last() =~= first + second.drop_last());
        assert((first + second).last() == second.last());
    }
}

/// Running a single step is performing it.
pub proof fn lemma_run_one(step: StepView, machine: Machine)
    ensures
        ran(seq![step], machine) == performed(step, machine),
        can_run(seq![step], machine) == can_perform(step, machine),
{
    let steps = seq![step];
    assert(steps.drop_last() =~= Seq::<StepView>::empty());
    assert(steps.last() == step);
    assert(ran(steps.drop_last(), machine) == machine);
    assert(can_run(steps.drop_last(), machine));
}

/// Running no step changes nothing.
pub proof fn lemma_run_none(machine: Machine)
    ensures
        ran(Seq::<StepView>::empty(), machine) == machine,
        can_run(Seq::<StepView>::empty(), machine),
{
}

/// The plan of an expression can be run wherever the emission stands in a
/// block; it leaves a value, and slots for the locals that it declares.
pub proof fn lemma_expr_plan_runs(
    expr: ExprView,
    scope: Levels,
    emitted: EmittedView,
    machine: Machine,
)
    requires
        planned_expr(expr, scope, emitted) is Ok,
        machine.positioned,
        holds(machine, emitted),
    ensures
        can_run(planned_expr(expr, scope, emitted)->Ok_0, machine),
        grown(machine, ran(planned_expr(expr, scope, emitted)->Ok_0, machine)),
        ran(planned_expr(expr, scope, emitted)->Ok_0, machine).value,
        holds(
            ran(planned_expr(expr, scope, emitted)->Ok_0, machine),
            emitted_after_plan(expr, emitted),
        ),
    decreases expr,
{
    let steps = planned_expr(expr, scope, emitted)->Ok_0;
    match expr {
        ExprView::Assignment(assignment) => {
            let local = assignment.var.name.location();
            let alloca = StepView::Alloca { local, name: assignment.var.name.fragment };
            let store = StepView::Store { local };
            let value = planned_expr(assignment.expr, scope, emitted)->Ok_0;
            let reserved = performed(alloca, machine);
            lemma_run_one(alloca, machine);
            lemma_expr_plan_runs(assignment.expr, scope, emitted, reserved);
            let valued = ran(value, reserved);
            lemma_run_concat(seq![alloca], value, machine);
            lemma_run_one(store, ran(seq![alloca] + value, machine));
            lemma_run_concat(seq![alloca] + value, seq![store], machine);
            assert(steps == seq![alloca] + value + seq![store]);
            assert(valued.slots.contains(local));
            let after = emitted_after_plan(assignment.expr, emitted);
            assert forall|other: Location|
                after.with_local(local).locals.contains(other) implies valued.slots.contains(
                other,
            ) by {
                if other != local {
                    let k = choose|k: int|
                        0 <= k < after.with_local(local).locals.len() && after.with_local(
                            local,
                        ).locals[k] == other;
                    assert(after.locals[k] == other);
                }
            }
        },
        _ => {
            assert(steps.len() == 1);
            assert(steps =~= seq![steps[0]]);
            lemma_run_one(steps[0], machine);
        },
    }
}

/// The plans of the first `count` statements of a body can be run in a
/// function; after the first of them the emission stands in a block.
pub proof fn lemma_statements_plan_runs(
    exprs: Seq<ExprView>,
    count: int,
    scope: Levels,
    emitted: EmittedView,
    machine: Machine,
)
    requires
        0 <= count <= exprs.len(),
        planned_statements(exprs, count, scope, emitted) is Ok,
        machine.function,
        holds(machine, emitted),
    ensures
        can_run(planned_statements(exprs, count, scope, emitted)->Ok_0, machine),
        grown(machine, ran(planned_statements(exprs, count, scope, emitted)->Ok_0, machine)),
        count > 0 ==> ran(
            planned_statements(exprs, count, scope, emitted)->Ok_0,
            machine,
        ).positioned,
        holds(
            ran(planned_statements(exprs, count, scope, emitted)->Ok_0, machine),
            emitted_after_plans(exprs, count, emitted),
        ),
    decreases count,
{
    if count == 0 {
        lemma_run_none(machine);
    } else {
        let index = count - 1;
        let before = planned_statements(exprs, index, scope, emitted)->Ok_0;
        lemma_statements_plan_runs(exprs, index, scope, emitted, machine);
        let reached = ran(before, machine);
        let inner = scope_after_plans(exprs, index, scope);
        let sofar = emitted_after_plans(exprs, index, emitted);
        let value = planned_expr(exprs[index], inner, sofar)->Ok_0;
        let append = StepView::AppendBlock { name: block_name(index as nat) };
        let branch: Seq<StepView> = if index > 0 {
            seq![StepView::Branch]
        } else {
            Seq::empty()
        };
        let enter = StepView::PositionAtEnd;
        let finish: Seq<StepView> = if index == exprs.len() - 1 {
            seq![StepView::Return]
        } else {
            Seq::empty()
        };
        let statement = planned_statement(exprs, index, scope, emitted)->Ok_0;
        assert(statement == seq![append] + branch + seq![enter] + value + finish);
        lemma_run_one(append, reached);
        let appended = performed(append, reached);
        if index > 0 {
            lemma_run_one(StepView::Branch, appended);
        } else {
            lemma_run_none(appended);
        }
        lemma_run_concat(seq![append], branch, reached);
        let branched = ran(seq![append] + branch, reached);
        assert(branched == appended);
        lemma_run_one(enter, branched);
        lemma_run_concat(seq![append] + branch, seq![enter], reached);
        let entered = performed(enter, branched);
        lemma_expr_plan_runs(exprs[index], inner, sofar, entered);
        lemma_run_concat(seq![append] + branch + seq![enter], value, reached);
        let valued = ran(value, entered);
        if index == exprs.len() - 1 {
            lemma_run_one(StepView::Return, valued);
        } else {
            lemma_run_none(valued);
        }
        lemma_run_concat(seq![append] + branch + seq![enter] + value, finish, reached);
        lemma_run_concat(before, statement, machine);
    }
}

/// The plan of a function can be run anywhere; it leaves a current function.
pub proof fn lemma_func_plan_runs(
    func: MethodView,
    id: DefId,
    scope: Levels,
    emitted: EmittedView,
    machine: Machine,
)
    requires
        planned_func(func, id, scope, emitted) is Ok,
        holds(machine, emitted),
    ensures
        can_run(planned_func(func, id, scope, emitted)->Ok_0, machine),
        grown(machine, ran(planned_func(func, id, scope, emitted)->Ok_0, machine)),
        holds(
            ran(planned_func(func, id, scope, emitted)->Ok_0, machine),
            emitted_after_func(func, id, emitted),
        ),
{
    let add = StepView::AddFunction { id, name: func.name.fragment };
    let inner = scope.push(Map::empty());
    let started = emitted.with_function(id);
    let body = planned_statements(func.exprs, func.exprs.len() as int, inner, started)->Ok_0;
    lemma_run_one(add, machine);
    let added = performed(add, machine);
    assert forall|other: DefId| started.functions.contains(other) implies added.functions.contains(
        other,
    ) by {
        if other != id {
            let k = choose|k: int|
                0 <= k < started.functions.len() && started.functions[k] == other;
            assert(emitted.functions[k] == other);
        }
    }
    lemma_statements_plan_runs(func.exprs, func.exprs.len() as int, inner, started, added);
    lemma_run_concat(seq![add], body, machine);
}

/// The plans of the first `count` items of a unit can be run anywhere.
pub proof fn lemma_items_plan_runs(
    items: Seq<ItemView>,
    count: int,
    scope: Levels,
    emitted: EmittedView,
    machine: Machine,
)
    requires
        0 <= count <= items.len(),
        planned_items(items, count, scope, emitted) is Ok,
        holds(machine, emitted),
    ensures
        can_run(planned_items(items, count, scope, emitted)->Ok_0, machine),
        grown(machine, ran(planned_items(items, count, scope, emitted)->Ok_0, machine)),
        holds(
            ran(planned_items(items, count, scope, emitted)->Ok_0, machine),
            emitted_after_items(items, count, emitted),
        ),
    decreases count,
{
    if count == 0 {
        lemma_run_none(machine);
    } else {
        let index = count - 1;
        let before = planned_items(items, index, scope, emitted)->Ok_0;
        lemma_items_plan_runs(items, index, scope, emitted, machine);
        let reached = ran(before, machine);
        let sofar = emitted_after_items(items, index, emitted);
        let item = planned_item(items[index], item_id(index), scope, sofar)->Ok_0;
        match items[index] {
            ItemView::Method(func) => {
                lemma_func_plan_runs(func, item_id(index), scope, sofar, reached);
            },
            ItemView::Class(_) => {
                lemma_run_none(reached);
            },
        }
        lemma_run_concat(before, item, machine);
    }
}

/// A plan can be performed. Whatever the unit, each step of the plan that
/// generation gives for it finds what it needs when its turn comes: a
/// function for its block, a block for its branch, a slot for its load or
/// store, a value to store or return, the function that it calls.
pub proof fn law_plan_can_be_performed(items: Seq<ItemView>, scope: Levels)
    requires
        planned_mod(items, scope) is Ok,
    ensures
        can_run(planned_mod(items, scope)->Ok_0, start()),
{
    lemma_items_plan_runs(
        items,
        items.len() as int,
        scope.push(Map::empty()),
        EmittedView { functions: Seq::empty(), locals: Seq::empty() },
        start(),
    );
}

} // verus!
