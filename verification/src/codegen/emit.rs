//! Emission: a plan performed on an LLVM module.
use vstd::prelude::*;
use vstd::pervasive::unreached;
use inkwell::basic_block::BasicBlock;
use inkwell::builder::Builder;
use inkwell::context::Context;
use inkwell::module::Module;
use inkwell::values::IntValue;
use crate::analyse::scope::Scope;
use crate::codegen::llvm::{
    add_function, append_basic_block, build_alloca, build_call, build_load, build_return,
    build_store, build_unconditional_branch, call_value, const_int, create_builder, create_module,
    fn_type, i32_type, position_at_end, IntFunction, Positioned, Slot,
};
use crate::codegen::machine::{can_perform, can_run, law_plan_can_be_performed, ran, start, Machine};
use crate::codegen::{gen_mod, planned_mod, steps_view, GenError, Step, StepView};
use crate::tree::{CompilationUnit, DefId, Location};

verus! {

/// Why an emission stopped at the step `step` of its plan.
#[derive(Debug, Clone, Copy, PartialEq, Eq, Structural)]
pub enum EmitError {
    /// The step needs what the steps before it have not made.
    Malformed { step: usize },
    /// LLVM gave the load or the call of the step a value that is no
    /// integer.
    NotAnInteger { step: usize },
}

/// The builder of an emission: free as long as no step has put it at the end
/// of a block, and placed from then on.
enum Cursor<'ctx> {
    Free(Builder<'ctx>),
    Placed(Positioned<'ctx>),
}

/// The handles of an emission under way.
struct Emission<'ctx> {
    functions: Vec<(DefId, IntFunction<'ctx>)>,
    slots: Vec<(Location, Slot<'ctx>)>,
    function: Option<IntFunction<'ctx>>,
    block: Option<BasicBlock<'ctx>>,
    value: Option<IntValue<'ctx>>,
}

impl<'ctx> Emission<'ctx> {
    /// What the machine of the plan has when the emission has these handles
    /// and its builder is placed or not.
    spec fn machine(self, positioned: bool) -> Machine {
        Machine {
            functions: Set::new(
                |id: DefId|
                    exists|k: int| 0 <= k < self.functions@.len() && self.functions@[k].0 == id,
            ),
            slots: Set::new(
                |local: Location|
                    exists|k: int| 0 <= k < self.slots@.len() && self.slots@[k].0 == local,
            ),
            function: self.function is Some,
            block: self.block is Some,
            positioned,
            value: self.value is Some,
        }
    }

    /// The function that was added last for `id`.
    fn function_of(&self, id: DefId) -> (found: Option<IntFunction<'ctx>>)
        ensures
            forall|positioned: bool|
                found is Some <==> (#[trigger] self.machine(positioned)).functions.contains(id),
    {
        let mut k: usize = self.functions.len();
        while k > 0
            invariant
                k <= self.functions@.len(),
                forall|j: int| k <= j < self.functions@.len() ==> self.functions@[j].0 != id,
            decreases k,
        {
            k -= 1;
            if self.functions[k].0 == id {
                return Some(self.functions[k].1);
            }
        }
        None
    }

    /// The slot that was reserved last for `local`.
    fn slot_of(&self, local: Location) -> (found: Option<Slot<'ctx>>)
        ensures
            forall|positioned: bool|
                found is Some <==> (#[trigger] self.machine(positioned)).slots.contains(local),
    {
        let mut k: usize = self.slots.len();
        while k > 0
            invariant
                k <= self.slots@.len(),
                forall|j: int| k <= j < self.slots@.len() ==> self.slots@[j].0 != local,
            decreases k,
        {
            k -= 1;
            if self.slots[k].0 == local {
                return Some(self.slots[k].1);
            }
        }
        None
    }
}

/// The step is a load or a call: one whose value LLVM gives.
pub open spec fn takes_value(step: StepView) -> bool {
    step is Load || step is Call
}

/// No step of the plan is a load or a call.
pub open spec fn takes_no_value(steps: Seq<StepView>) -> bool {
    forall|k: int| 0 <= k < steps.len() ==> !takes_value(#[trigger] steps[k])
}

/// Performs a plan on a new module of the context.
///
/// The steps are performed in order, each by the call on LLVM that it
/// names. The emission stops at the first step that does not find what it
/// needs, and at a load or a call for which LLVM gives no integer. A plan
/// whose steps all find what they need, and which has no load and no call,
/// is performed to its end.
pub fn emit<'ctx>(plan: &[Step], context: &'ctx Context) -> (result: Result<Module<'ctx>, EmitError>)
    ensures
        result is Ok ==> can_run(steps_view(plan@), start()),
        result matches Err(EmitError::Malformed { step }) ==> step < plan@.len() && can_run(
            steps_view(plan@).take(step as int),
            start(),
        ) && !can_perform(plan@[step as int]@, ran(steps_view(plan@).take(step as int), start())),
        result matches Err(EmitError::NotAnInteger { step }) ==> step < plan@.len() && can_run(
            steps_view(plan@).take(step + 1),
            start(),
        ) && takes_value(plan@[step as int]@),
        can_run(steps_view(plan@), start()) ==> result is Ok || result matches Err(
            EmitError::NotAnInteger { .. },
        ),
        can_run(steps_view(plan@), start()) && takes_no_value(steps_view(plan@)) ==> result is Ok,
{
    let module = create_module(context, "main");
    let int_type = i32_type(context);
    let mut cursor = Cursor::Free(create_builder(context));
    let mut emission = Emission {
        functions: Vec::new(),
        slots: Vec::new(),
        function: None,
        block: None,
        value: None,
    };
    let ghost steps = steps_view(plan@);
    assert(steps.take(0) =~= Seq::<StepView>::empty());
    assert(emission.machine(false).functions =~= start().functions);
    assert(emission.machine(false).slots =~= start().slots);
    let n: usize = plan.len();
    let mut k: usize = 0;
    while k < n
        invariant
            k <= n,
            n == plan@.len(),
            steps == steps_view(plan@),
            can_run(steps.take(k as int), start()),
            emission.machine(cursor is Placed) == ran(steps.take(k as int), start()),
        decreases n - k,
    {
        proof {
            assert(steps.take(k + 1).drop_last() =~= steps.take(k as int));
            assert(steps.take(k + 1).last() == plan@[k as int]@);
            assert(steps[k as int] == plan@[k as int]@);
            if can_run(steps, start()) {
                lemma_can_run_prefix(steps, k + 1, start());
            }
        }
        let ghost before = emission;
        let ghost placed = cursor is Placed;
        match &plan[k] {
            Step::AddFunction { id, name } => {
                let added = add_function(&module, name.as_str(), fn_type(int_type, false));
                emission.functions.push((*id, added));
                emission.function = Some(added);
                assert(emission.machine(placed).functions
                    =~= before.machine(placed).functions.insert(*id)) by {
                    assert forall|other: DefId|
                        emission.machine(placed).functions.contains(other) == before.machine(
                            placed,
                        ).functions.insert(*id).contains(other) by {
                        if before.machine(placed).functions.contains(other) {
                            let j = choose|j: int|
                                0 <= j < before.functions@.len() && before.functions@[j].0
                                    == other;
                            assert(emission.functions@[j].0 == other);
                        }
                        if other == *id {
                            assert(emission.functions@[emission.functions@.len() - 1].0 == other);
                        }
                    }
                }
                assert(emission.machine(placed).slots =~= before.machine(placed).slots);
            },
            Step::AppendBlock { name } => {
                match emission.function {
                    Some(function) => {
                        emission.block = Some(append_basic_block(context, function, name.as_str()));
                    },
                    None => {
                        return Err(EmitError::Malformed { step: k });
                    },
                }
            },
            Step::Branch => {
                match (emission.block, &cursor) {
                    (Some(block), Cursor::Placed(builder)) => {
                        match build_unconditional_branch(builder, block) {
                            Ok(_) => {},
                            Err(_) => unreached(),
                        }
                    },
                    _ => {
                        return Err(EmitError::Malformed { step: k });
                    },
                }
            },
            Step::PositionAtEnd => {
                match emission.block {
                    Some(block) => {
                        cursor =
                        match cursor {
                            Cursor::Free(builder) => Cursor::Placed(position_at_end(builder, block)),
                            Cursor::Placed(builder) => Cursor::Placed(
                                position_at_end(builder.release(), block),
                            ),
                        };
                    },
                    None => {
                        return Err(EmitError::Malformed { step: k });
                    },
                }
            },
            Step::Const { bits } => {
                emission.value = Some(const_int(int_type, *bits, false));
            },
            Step::Alloca { local, name } => {
                match &cursor {
                    Cursor::Placed(builder) => {
                        let slot = match build_alloca(builder, int_type, name.as_str()) {
                            Ok(slot) => slot,
                            Err(_) => unreached(),
                        };
                        emission.slots.push((*local, slot));
                        assert(emission.machine(placed).slots =~= before.machine(
                            placed,
                        ).slots.insert(*local)) by {
                            assert forall|other: Location|
                                emission.machine(placed).slots.contains(other) == before.machine(
                                    placed,
                                ).slots.insert(*local).contains(other) by {
                                if before.machine(placed).slots.contains(other) {
                                    let j = choose|j: int|
                                        0 <= j < before.slots@.len() && before.slots@[j].0
                                            == other;
                                    assert(emission.slots@[j].0 == other);
                                }
                                if other == *local {
                                    assert(emission.slots@[emission.slots@.len() - 1].0 == other);
                                }
                            }
                        }
                        assert(emission.machine(placed).functions =~= before.machine(
                            placed,
                        ).functions);
                    },
                    Cursor::Free(_) => {
                        return Err(EmitError::Malformed { step: k });
                    },
                }
            },
            Step::Store { local } => {
                match (emission.slot_of(*local), emission.value, &cursor) {
                    (Some(slot), Some(value), Cursor::Placed(builder)) => {
                        match build_store(builder, slot, value) {
                            Ok(_) => {},
                            Err(_) => unreached(),
                        }
                    },
                    _ => {
                        return Err(EmitError::Malformed { step: k });
                    },
                }
            },
            Step::Load { local } => {
                match (emission.slot_of(*local), &cursor) {
                    (Some(slot), Cursor::Placed(builder)) => {
                        match build_load(builder, slot, "deref") {
                            Ok(Some(value)) => {
                                emission.value = Some(value);
                            },
                            Ok(None) => {
                                return Err(EmitError::NotAnInteger { step: k });
                            },
                            Err(_) => unreached(),
                        }
                    },
                    _ => {
                        return Err(EmitError::Malformed { step: k });
                    },
                }
            },
            Step::Call { function, name } => {
                match (emission.function_of(*function), &cursor) {
                    (Some(callee), Cursor::Placed(builder)) => {
                        let call = match build_call(builder, callee, name.as_str()) {
                            Ok(call) => call,
                            Err(_) => unreached(),
                        };
                        match call_value(call) {
                            Some(value) => {
                                emission.value = Some(value);
                            },
                            None => {
                                return Err(EmitError::NotAnInteger { step: k });
                            },
                        }
                    },
                    _ => {
                        return Err(EmitError::Malformed { step: k });
                    },
                }
            },
            Step::Return => {
                match (emission.value, &cursor) {
                    (Some(value), Cursor::Placed(builder)) => {
                        match build_return(builder, value) {
                            Ok(_) => {},
                            Err(_) => unreached(),
                        }
                    },
                    _ => {
                        return Err(EmitError::Malformed { step: k });
                    },
                }
            },
        }
        k += 1;
    }
    assert(steps.take(n as int) =~= steps);
    Ok(module)
}

/// Steps that can be run can be run up to any of them.
pub proof fn lemma_can_run_prefix(steps: Seq<StepView>, count: int, machine: Machine)
    requires
        0 <= count <= steps.len(),
        can_run(steps, machine),
    ensures
        can_run(steps.take(count), machine),
    decreases steps.len(),
{
    if count < steps.len() {
        lemma_can_run_prefix(steps.drop_last(), count, machine);
        assert(steps.drop_last().take(count) =~= steps.take(count));
    } else {
        assert(steps.take(count) =~= steps);
    }
}

/// Why there is no code for a unit.
#[derive(Debug, PartialEq, Eq)]
pub enum CompileError {
    /// There is no plan.
    Plan(GenError),
    /// LLVM stopped the emission of the plan.
    Emission(EmitError),
}

/// Generates the code of a linked unit into a new module of the context.
///
/// Where the unit has no plan, the result is the error of the plan. A plan
/// is performed to its end, unless LLVM gives a load or a call of it a
/// value that is no integer: no step of a plan ever lacks what it needs.
pub fn compile<'ctx>(unit: &CompilationUnit, scope: &mut Scope, context: &'ctx Context) -> (result:
    Result<Module<'ctx>, CompileError>)
    ensures
        final(scope)@ == old(scope)@,
        match planned_mod(unit@, old(scope)@) {
            Ok(steps) => {
                &&& result is Ok || (result matches Err(
                    CompileError::Emission(EmitError::NotAnInteger { step }),
                ) && step < steps.len() && takes_value(steps[step as int]))
                &&& takes_no_value(steps) ==> result is Ok
            },
            Err(error) => result matches Err(CompileError::Plan(found)) && found@ == error,
        },
{
    match gen_mod(unit, scope) {
        Ok(plan) => {
            proof {
                law_plan_can_be_performed(unit@, old(scope)@);
            }
            match emit(plan.as_slice(), context) {
                Ok(module) => Ok(module),
                Err(error) => {
                    assert(steps_view(plan@)[error->NotAnInteger_step as int]
                        == plan@[error->NotAnInteger_step as int]@);
                    Err(CompileError::Emission(error))
                },
            }
        },
        Err(error) => Err(CompileError::Plan(error)),
    }
}

} // verus!
