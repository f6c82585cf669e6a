//! The calls into LLVM that an emission makes, through `inkwell`.
//!
//! Nothing is known here of what LLVM builds: its handles are opaque, and
//! what a call returns is taken as it comes.
//!
//! Some handles are kept in types of this module. They record where a
//! handle comes from: a [`Slot`] is a pointer that a reservation for an
//! integer gave, an [`IntFunction`] is a function that gives an integer. No
//! other code can make one, and so a load from a slot and the value of a
//! call are integers.
//!
//! A [`Positioned`] is a builder that was put at the end of a block. A
//! builder refuses an instruction only as long as it was never put
//! anywhere; so the instructions that are built with a [`Positioned`] are
//! not refused.
use vstd::prelude::*;
use inkwell::basic_block::BasicBlock;
use inkwell::builder::{Builder, BuilderError};
use inkwell::context::Context;
use inkwell::module::Module;
use inkwell::types::{FunctionType, IntType};
use inkwell::values::{
    BasicValueEnum, CallSiteValue, FunctionValue, InstructionValue, IntValue, PointerValue,
};

verus! {

#[verifier::external_type_specification]
#[verifier::external_body]
pub struct ExContext(Context);

#[verifier::external_type_specification]
#[verifier::external_body]
pub struct ExModule<'ctx>(Module<'ctx>);

#[verifier::external_type_specification]
#[verifier::external_body]
pub struct ExBuilder<'ctx>(Builder<'ctx>);

#[verifier::external_type_specification]
#[verifier::external_body]
pub struct ExBuilderError(BuilderError);

#[verifier::external_type_specification]
#[verifier::external_body]
pub struct ExIntType<'ctx>(IntType<'ctx>);

#[verifier::external_type_specification]
#[verifier::external_body]
pub struct ExFunctionType<'ctx>(FunctionType<'ctx>);

#[verifier::external_type_specification]
#[verifier::external_body]
pub struct ExFunctionValue<'ctx>(FunctionValue<'ctx>);

#[verifier::external_type_specification]
#[verifier::external_body]
pub struct ExBasicBlock<'ctx>(BasicBlock<'ctx>);

#[verifier::external_type_specification]
#[verifier::external_body]
pub struct ExInstructionValue<'ctx>(InstructionValue<'ctx>);

#[verifier::external_type_specification]
#[verifier::external_body]
pub struct ExPointerValue<'ctx>(PointerValue<'ctx>);

#[verifier::external_type_specification]
#[verifier::external_body]
pub struct ExIntValue<'ctx>(IntValue<'ctx>);

#[verifier::external_type_specification]
#[verifier::external_body]
pub struct ExCallSiteValue<'ctx>(CallSiteValue<'ctx>);

/// The type of the functions that take no argument and give an integer.
#[derive(Clone, Copy)]
pub struct IntFunctionType<'ctx> {
    function_type: FunctionType<'ctx>,
}

/// A function that takes no argument and gives an integer.
#[derive(Clone, Copy)]
pub struct IntFunction<'ctx> {
    function: FunctionValue<'ctx>,
}

/// A slot on the stack that holds an integer.
#[derive(Clone, Copy)]
pub struct Slot<'ctx> {
    pointer: PointerValue<'ctx>,
}

/// A call of a function that gives an integer.
#[derive(Clone, Copy)]
pub struct IntCall<'ctx> {
    site: CallSiteValue<'ctx>,
}

/// A builder that stands at the end of a block.
pub struct Positioned<'ctx> {
    builder: Builder<'ctx>,
}

impl<'ctx> Positioned<'ctx> {
    /// The builder, to be put at the end of another block.
    pub(crate) fn release(self) -> Builder<'ctx> {
        self.builder
    }
}

/// `Context::create_module`: a new module of the context, by the name
/// `name`.
#[verifier::external_body]
pub(crate) fn create_module<'ctx>(context: &'ctx Context, name: &str) -> Module<'ctx> {
    context.create_module(name)
}

/// `Context::create_builder`: a new builder of the context, which does not
/// stand anywhere yet.
#[verifier::external_body]
pub(crate) fn create_builder<'ctx>(context: &'ctx Context) -> Builder<'ctx> {
    context.create_builder()
}

/// `Context::i32_type`: the type of the 32-bit integers of the context.
#[verifier::external_body]
pub(crate) fn i32_type<'ctx>(context: &'ctx Context) -> IntType<'ctx> {
    context.i32_type()
}

/// `IntType::fn_type` without parameter types: the type of the functions
/// that take no argument and give an integer of the type `returned`.
#[verifier::external_body]
pub(crate) fn fn_type<'ctx>(returned: IntType<'ctx>, is_var_args: bool) -> IntFunctionType<'ctx> {
    IntFunctionType { function_type: returned.fn_type(&[], is_var_args) }
}

/// `Module::add_function` with the default linkage: a new function of the
/// module, of the type `function_type`, named after `name`.
#[verifier::external_body]
pub(crate) fn add_function<'ctx>(
    module: &Module<'ctx>,
    name: &str,
    function_type: IntFunctionType<'ctx>,
) -> IntFunction<'ctx> {
    IntFunction { function: module.add_function(name, function_type.function_type, None) }
}

/// `Context::append_basic_block`: a new block at the end of the function.
#[verifier::external_body]
pub(crate) fn append_basic_block<'ctx>(
    context: &'ctx Context,
    function: IntFunction<'ctx>,
    name: &str,
) -> BasicBlock<'ctx> {
    context.append_basic_block(function.function, name)
}

/// `Builder::position_at_end`: the builder stands at the end of the block
/// from here on.
#[verifier::external_body]
pub(crate) fn position_at_end<'ctx>(builder: Builder<'ctx>, block: BasicBlock<'ctx>) -> Positioned<
    'ctx,
> {
    builder.position_at_end(block);
    Positioned { builder }
}

/// `Builder::build_unconditional_branch`: a branch to the block. The method
/// refuses only where the builder was never put anywhere.
#[verifier::external_body]
pub(crate) fn build_unconditional_branch<'ctx>(
    builder: &Positioned<'ctx>,
    block: BasicBlock<'ctx>,
) -> (result: Result<InstructionValue<'ctx>, BuilderError>)
    ensures
        result is Ok,
{
    builder.builder.build_unconditional_branch(block)
}

/// `IntType::const_int`: the constant of the type with the bits `bits`.
#[verifier::external_body]
pub(crate) fn const_int<'ctx>(int_type: IntType<'ctx>, bits: u64, sign_extend: bool) -> IntValue<'ctx> {
    int_type.const_int(bits, sign_extend)
}

/// `Builder::build_alloca` for an integer type: a slot on the stack. The
/// method refuses only where the builder was never put anywhere.
#[verifier::external_body]
pub(crate) fn build_alloca<'ctx>(
    builder: &Positioned<'ctx>,
    int_type: IntType<'ctx>,
    name: &str,
) -> (result: Result<Slot<'ctx>, BuilderError>)
    ensures
        result is Ok,
{
    match builder.builder.build_alloca(int_type, name) {
        Ok(pointer) => Ok(Slot { pointer }),
        Err(error) => Err(error),
    }
}

/// `Builder::build_store`: a store of the value in the slot. The method
/// refuses only where the builder was never put anywhere.
#[verifier::external_body]
pub(crate) fn build_store<'ctx>(
    builder: &Positioned<'ctx>,
    slot: Slot<'ctx>,
    value: IntValue<'ctx>,
) -> (result: Result<InstructionValue<'ctx>, BuilderError>)
    ensures
        result is Ok,
{
    builder.builder.build_store(slot.pointer, value)
}

/// `Builder::build_load`: what the slot holds, if that is an integer. The
/// method refuses only where the builder was never put anywhere.
#[verifier::external_body]
pub(crate) fn build_load<'ctx>(builder: &Positioned<'ctx>, slot: Slot<'ctx>, name: &str) -> (result:
    Result<Option<IntValue<'ctx>>, BuilderError>)
    ensures
        result is Ok,
{
    match builder.builder.build_load(slot.pointer, name) {
        Ok(BasicValueEnum::IntValue(value)) => Ok(Some(value)),
        Ok(_) => Ok(None),
        Err(error) => Err(error),
    }
}

/// `Builder::build_call` without arguments: a call of the function, by the
/// name `name`. The method refuses only where the builder was never put
/// anywhere.
#[verifier::external_body]
pub(crate) fn build_call<'ctx>(
    builder: &Positioned<'ctx>,
    function: IntFunction<'ctx>,
    name: &str,
) -> (result: Result<IntCall<'ctx>, BuilderError>)
    ensures
        result is Ok,
{
    match builder.builder.build_call(function.function, &[], name) {
        Ok(site) => Ok(IntCall { site }),
        Err(error) => Err(error),
    }
}

/// `CallSiteValue::try_as_basic_value`: what the call gives, if that is an
/// integer.
#[verifier::external_body]
pub(crate) fn call_value<'ctx>(call: IntCall<'ctx>) -> Option<IntValue<'ctx>> {
    match call.site.try_as_basic_value().left() {
        Some(BasicValueEnum::IntValue(value)) => Some(value),
        _ => None,
    }
}

/// `Builder::build_return`: a return of the value. The method refuses only
/// where the builder was never put anywhere.
#[verifier::external_body]
pub(crate) fn build_return<'ctx>(builder: &Positioned<'ctx>, value: IntValue<'ctx>) -> (result:
    Result<InstructionValue<'ctx>, BuilderError>)
    ensures
        result is Ok,
{
    builder.builder.build_return(Some(&value))
}

} // verus!
