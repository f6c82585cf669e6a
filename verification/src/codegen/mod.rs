//! Code generation for a linked unit.
//!
//! Every function of the language takes no argument and gives an integer.
//! Generation goes in two parts. The `gen_` functions of this module give
//! the plan of the emission: a list of [`Step`]s for a machine that holds a
//! module under construction, a current function, the block appended last,
//! the place where it stands and one value. [`emit`] performs the steps on
//! LLVM. What is proved is proved of the plan; of LLVM nothing is known but
//! that it is called as the plan says.
//!
//! A plan is made for a whole unit or not at all: the first expression for
//! which nothing can be emitted ends generation with a [`GenError`].
use vstd::prelude::*;
use vstd::string::StringExecFns;
use crate::analyse::scope::{bind, lookup, Levels, Scope};
use crate::tree::{
    Assignment, CompilationUnit, CompilationUnitItem, Def, DefId, Expr, ExprView,
    Invoke, InvokeView, ItemView, Location, Method, MethodView, Num, Var, VarView,
};

pub mod emit;
pub mod llvm;
pub mod machine;

verus! {

/// One step of an emission.
#[derive(Debug, PartialEq, Eq)]
pub enum Step {
    /// Add a function `name` that takes no argument and gives a 32-bit
    /// integer; it is the function of the definition `id` and the current
    /// function from here on.
    AddFunction { id: DefId, name: String },
    /// Append a block `name` to the current function.
    AppendBlock { name: String },
    /// Branch, from where the emission stands, to the block appended last.
    Branch,
    /// Go on at the end of the block appended last.
    PositionAtEnd,
    /// The value is the 32-bit integer constant with these bits, not
    /// sign-extended.
    Const { bits: u64 },
    /// Reserve a 32-bit slot on the stack, by the name `name`, for the local
    /// declared at `local`.
    Alloca { local: Location, name: String },
    /// Store the value in the slot of the local declared at `local`.
    Store { local: Location },
    /// The value is what the slot of the local declared at `local` holds.
    Load { local: Location },
    /// The value is what a call of the function of `function`, without
    /// arguments, gives; the call goes by the name `name`.
    Call { function: DefId, name: String },
    /// Return the value from the current function.
    Return,
}

pub enum StepView {
    AddFunction { id: DefId, name: Seq<char> },
    AppendBlock { name: Seq<char> },
    Branch,
    PositionAtEnd,
    Const { bits: u64 },
    Alloca { local: Location, name: Seq<char> },
    Store { local: Location },
    Load { local: Location },
    Call { function: DefId, name: Seq<char> },
    Return,
}

impl View for Step {
    type V = StepView;

    open spec fn view(&self) -> StepView {
        match self {
            Step::AddFunction { id, name } => StepView::AddFunction { id: *id, name: name@ },
            Step::AppendBlock { name } => StepView::AppendBlock { name: name@ },
            Step::Branch => StepView::Branch,
            Step::PositionAtEnd => StepView::PositionAtEnd,
            Step::Const { bits } => StepView::Const { bits: *bits },
            Step::Alloca { local, name } => StepView::Alloca { local: *local, name: name@ },
            Step::Store { local } => StepView::Store { local: *local },
            Step::Load { local } => StepView::Load { local: *local },
            Step::Call { function, name } => StepView::Call { function: *function, name: name@ },
            Step::Return => StepView::Return,
        }
    }
}

/// The views of a sequence of steps, in order.
pub open spec fn steps_view(steps: Seq<Step>) -> Seq<StepView> {
    Seq::new(steps.len(), |i: int| steps[i]@)
}

/// Why nothing can be emitted for an expression.
#[derive(Debug, PartialEq, Eq)]
pub enum GenError {
    /// A variable is used that no assignment before it declares.
    UnboundVariable { name: String, location: Location },
    /// A call has no link to a function.
    UnresolvedCall { name: String, location: Location },
    /// A call is linked to a function for which nothing was emitted yet.
    UndefinedFunction { name: String, location: Location },
    /// The expression is a string literal.
    UnsupportedLiteral { location: Location },
}

pub enum GenErrorView {
    UnboundVariable { name: Seq<char>, location: Location },
    UnresolvedCall { name: Seq<char>, location: Location },
    UndefinedFunction { name: Seq<char>, location: Location },
    UnsupportedLiteral { location: Location },
}

impl View for GenError {
    type V = GenErrorView;

    open spec fn view(&self) -> GenErrorView {
        match self {
            GenError::UnboundVariable { name, location } => GenErrorView::UnboundVariable {
                name: name@,
                location: *location,
            },
            GenError::UnresolvedCall { name, location } => GenErrorView::UnresolvedCall {
                name: name@,
                location: *location,
            },
            GenError::UndefinedFunction { name, location } => GenErrorView::UndefinedFunction {
                name: name@,
                location: *location,
            },
            GenError::UnsupportedLiteral { location } => GenErrorView::UnsupportedLiteral {
                location: *location,
            },
        }
    }
}

/// The view of the result of a generation.
pub open spec fn plan_view(result: Result<Vec<Step>, GenError>) -> Result<
    Seq<StepView>,
    GenErrorView,
> {
    match result {
        Ok(steps) => Ok(steps_view(steps@)),
        Err(error) => Err(error@),
    }
}

/// What an emission has made so far: the functions that were added and the
/// locals that have a slot.
pub struct Emitted {
    functions: Vec<DefId>,
    locals: Vec<Location>,
}

/// The functions and the locals of an emission, each in the order in which
/// they were made.
pub struct EmittedView {
    pub functions: Seq<DefId>,
    pub locals: Seq<Location>,
}

impl View for Emitted {
    type V = EmittedView;

    closed spec fn view(&self) -> EmittedView {
        EmittedView { functions: self.functions@, locals: self.locals@ }
    }
}

impl EmittedView {
    pub open spec fn with_function(self, id: DefId) -> EmittedView {
        EmittedView { functions: self.functions.push(id), locals: self.locals }
    }

    pub open spec fn with_local(self, local: Location) -> EmittedView {
        EmittedView { functions: self.functions, locals: self.locals.push(local) }
    }
}

impl Emitted {
    /// Nothing is emitted yet.
    pub fn new() -> (emitted: Emitted)
        ensures
            emitted@ == (EmittedView { functions: Seq::empty(), locals: Seq::empty() }),
    {
        Emitted { functions: Vec::new(), locals: Vec::new() }
    }

    /// Whether the function of `id` was added.
    pub fn has_function(&self, id: DefId) -> (found: bool)
        ensures
            found == self@.functions.contains(id),
    {
        let n: usize = self.functions.len();
        let mut k: usize = 0;
        while k < n
            invariant
                k <= n,
                n == self.functions@.len(),
                forall|j: int| 0 <= j < k ==> self.functions@[j] != id,
            decreases n - k,
        {
            if self.functions[k] == id {
                return true;
            }
            k += 1;
        }
        false
    }

    /// Whether the local declared at `local` has a slot.
    pub fn has_local(&self, local: Location) -> (found: bool)
        ensures
            found == self@.locals.contains(local),
    {
        let n: usize = self.locals.len();
        let mut k: usize = 0;
        while k < n
            invariant
                k <= n,
                n == self.locals@.len(),
                forall|j: int| 0 <= j < k ==> self.locals@[j] != local,
            decreases n - k,
        {
            if self.locals[k] == local {
                return true;
            }
            k += 1;
        }
        false
    }

    fn add_function(&mut self, id: DefId)
        ensures
            final(self)@ == old(self)@.with_function(id),
    {
        self.functions.push(id);
    }

    fn add_local(&mut self, local: Location)
        ensures
            final(self)@ == old(self)@.with_local(local),
    {
        self.locals.push(local);
    }

    /// Forgets what was made after the emission had `functions` functions
    /// and `locals` locals.
    fn rewind(&mut self, functions: usize, locals: usize)
        requires
            functions <= old(self)@.functions.len(),
            locals <= old(self)@.locals.len(),
        ensures
            final(self)@ == (EmittedView {
                functions: old(self)@.functions.take(functions as int),
                locals: old(self)@.locals.take(locals as int),
            }),
    {
        self.functions.truncate(functions);
        self.locals.truncate(locals);
    }
}

/// The bits of a 32-bit integer in two's complement, extended with its sign
/// to 64 bits.
pub open spec fn bits_of(value: i32) -> u64 {
    if value >= 0 {
        value as u64
    } else {
        (0x1_0000_0000_0000_0000 + value) as u64
    }
}

/// The decimal digit `d`.
pub open spec fn digit(d: nat) -> char {
    if d == 0 {
        '0'
    } else if d == 1 {
        '1'
    } else if d == 2 {
        '2'
    } else if d == 3 {
        '3'
    } else if d == 4 {
        '4'
    } else if d == 5 {
        '5'
    } else if d == 6 {
        '6'
    } else if d == 7 {
        '7'
    } else if d == 8 {
        '8'
    } else {
        '9'
    }
}

/// The decimal numeral of `n`, without leading zeros.
pub open spec fn decimal(n: nat) -> Seq<char>
    decreases n,
{
    if n < 10 {
        seq![digit(n)]
    } else {
        decimal(n / 10).push(digit(n % 10))
    }
}

/// The name of the block of the statement `index` of a body: `block_`
/// and the decimal numeral of the index.
pub open spec fn block_name(index: nat) -> Seq<char> {
    seq!['b', 'l', 'o', 'c', 'k', '_'] + decimal(index)
}

/// The plan for an expression, or why there is none.
///
/// A call is one step; its receiver and its arguments are passed over. An
/// assignment reserves the slot of its variable, then has the steps of its
/// right-hand side, then stores the value. A variable loads from the slot of
/// the local that its name denotes in `scope`.
pub open spec fn planned_expr(expr: ExprView, scope: Levels, emitted: EmittedView) -> Result<
    Seq<StepView>,
    GenErrorView,
>
    decreases expr,
{
    match expr {
        ExprView::Invoke(invoke) => planned_invoke(*invoke, emitted),
        ExprView::Num(num) => Ok(seq![StepView::Const { bits: bits_of(num.value) }]),
        ExprView::LiteralString(literal) => Err(
            GenErrorView::UnsupportedLiteral { location: literal.span.location() },
        ),
        ExprView::Assignment(assignment) => match planned_expr(assignment.expr, scope, emitted) {
            Ok(steps) => Ok(
                seq![
                    StepView::Alloca {
                        local: assignment.var.name.location(),
                        name: assignment.var.name.fragment,
                    },
                ] + steps + seq![StepView::Store { local: assignment.var.name.location() }],
            ),
            Err(error) => Err(error),
        },
        ExprView::Var(var) => planned_var(var, scope, emitted),
    }
}

/// The plan for a call, or why there is none.
pub open spec fn planned_invoke(invoke: InvokeView, emitted: EmittedView) -> Result<
    Seq<StepView>,
    GenErrorView,
> {
    match invoke.method_def {
        Some(id) => if emitted.functions.contains(id) {
            Ok(seq![StepView::Call { function: id, name: invoke.name.fragment }])
        } else {
            Err(
                GenErrorView::UndefinedFunction {
                    name: invoke.name.fragment,
                    location: invoke.name.location(),
                },
            )
        },
        None => Err(
            GenErrorView::UnresolvedCall {
                name: invoke.name.fragment,
                location: invoke.name.location(),
            },
        ),
    }
}

/// The plan for the use of a variable, or why there is none.
pub open spec fn planned_var(var: VarView, scope: Levels, emitted: EmittedView) -> Result<
    Seq<StepView>,
    GenErrorView,
> {
    match lookup(scope, var.name.fragment) {
        Some(Def::Local(local)) => if emitted.locals.contains(local) {
            Ok(seq![StepView::Load { local }])
        } else {
            Err(
                GenErrorView::UnboundVariable {
                    name: var.name.fragment,
                    location: var.name.location(),
                },
            )
        },
        _ => Err(
            GenErrorView::UnboundVariable {
                name: var.name.fragment,
                location: var.name.location(),
            },
        ),
    }
}

/// The scope after the steps of `expr` are planned: the variables of the
/// assignments that make up `expr` are declared, the innermost first.
pub open spec fn scope_after_plan(expr: ExprView, scope: Levels) -> Levels
    decreases expr,
{
    match expr {
        ExprView::Assignment(assignment) => bind(
            scope_after_plan(assignment.expr, scope),
            assignment.var.name.fragment,
            Def::Local(assignment.var.name.location()),
        ),
        _ => scope,
    }
}

/// What is emitted after the steps of `expr`: the variables of the
/// assignments that make up `expr` have their slots.
pub open spec fn emitted_after_plan(expr: ExprView, emitted: EmittedView) -> EmittedView
    decreases expr,
{
    match expr {
        ExprView::Assignment(assignment) => emitted_after_plan(
            assignment.expr,
            emitted,
        ).with_local(assignment.var.name.location()),
        _ => emitted,
    }
}

/// The scope after the first `count` statements of a body are planned.
pub open spec fn scope_after_plans(exprs: Seq<ExprView>, count: int, scope: Levels) -> Levels
    decreases count,
{
    if count <= 0 {
        scope
    } else {
        scope_after_plan(exprs[count - 1], scope_after_plans(exprs, count - 1, scope))
    }
}

/// What is emitted after the first `count` statements of a body.
pub open spec fn emitted_after_plans(
    exprs: Seq<ExprView>,
    count: int,
    emitted: EmittedView,
) -> EmittedView
    decreases count,
{
    if count <= 0 {
        emitted
    } else {
        emitted_after_plan(exprs[count - 1], emitted_after_plans(exprs, count - 1, emitted))
    }
}

/// The plan for the statement `index` of a body: a block of its own, a
/// branch into it from the block of the statement before, the steps of the
/// expression there, and after the last statement the return of its value.
pub open spec fn planned_statement(
    exprs: Seq<ExprView>,
    index: int,
    scope: Levels,
    emitted: EmittedView,
) -> Result<Seq<StepView>, GenErrorView> {
    match planned_expr(
        exprs[index],
        scope_after_plans(exprs, index, scope),
        emitted_after_plans(exprs, index, emitted),
    ) {
        Ok(steps) => Ok(
            seq![StepView::AppendBlock { name: block_name(index as nat) }] + (if index > 0 {
                seq![StepView::Branch]
            } else {
                Seq::empty()
            }) + seq![StepView::PositionAtEnd] + steps + (if index == exprs.len() - 1 {
                seq![StepView::Return]
            } else {
                Seq::empty()
            }),
        ),
        Err(error) => Err(error),
    }
}

/// The plan for the first `count` statements of a body: the plans of the
/// statements in a row, or the error of the first that has none.
pub open spec fn planned_statements(
    exprs: Seq<ExprView>,
    count: int,
    scope: Levels,
    emitted: EmittedView,
) -> Result<Seq<StepView>, GenErrorView>
    decreases count,
{
    if count <= 0 {
        Ok(Seq::empty())
    } else {
        match planned_statements(exprs, count - 1, scope, emitted) {
            Ok(before) => match planned_statement(exprs, count - 1, scope, emitted) {
                Ok(steps) => Ok(before + steps),
                Err(error) => Err(error),
            },
            Err(error) => Err(error),
        }
    }
}

/// The plan for a function with the handle `id`: the function is added, then
/// come its statements. The body is planned in a level of its own, in which
/// the function itself is already there to be called.
pub open spec fn planned_func(
    func: MethodView,
    id: DefId,
    scope: Levels,
    emitted: EmittedView,
) -> Result<Seq<StepView>, GenErrorView> {
    match planned_statements(
        func.exprs,
        func.exprs.len() as int,
        scope.push(Map::empty()),
        emitted.with_function(id),
    ) {
        Ok(steps) => Ok(seq![StepView::AddFunction { id, name: func.name.fragment }] + steps),
        Err(error) => Err(error),
    }
}

/// What is emitted after a function with the handle `id`.
pub open spec fn emitted_after_func(func: MethodView, id: DefId, emitted: EmittedView) -> EmittedView {
    emitted_after_plans(func.exprs, func.exprs.len() as int, emitted.with_function(id))
}

/// The plan for an item with the handle `id`: that of a function, and nothing
/// for a class.
pub open spec fn planned_item(
    item: ItemView,
    id: DefId,
    scope: Levels,
    emitted: EmittedView,
) -> Result<Seq<StepView>, GenErrorView> {
    match item {
        ItemView::Method(func) => planned_func(func, id, scope, emitted),
        ItemView::Class(_) => Ok(Seq::empty()),
    }
}

/// What is emitted after an item with the handle `id`.
pub open spec fn emitted_after_item(item: ItemView, id: DefId, emitted: EmittedView) -> EmittedView {
    match item {
        ItemView::Method(func) => emitted_after_func(func, id, emitted),
        ItemView::Class(_) => emitted,
    }
}

/// The handle of the item `index` of a program of one unit.
pub open spec fn item_id(index: int) -> DefId {
    DefId { unit: 0, item: index as usize }
}

/// What is emitted after the first `count` items of a unit.
pub open spec fn emitted_after_items(
    items: Seq<ItemView>,
    count: int,
    emitted: EmittedView,
) -> EmittedView
    decreases count,
{
    if count <= 0 {
        emitted
    } else {
        emitted_after_item(
            items[count - 1],
            item_id(count - 1),
            emitted_after_items(items, count - 1, emitted),
        )
    }
}

/// The plan for the first `count` items of a unit, in a row, or the error of
/// the first item that has none. A function can call itself and the
/// functions before it.
pub open spec fn planned_items(
    items: Seq<ItemView>,
    count: int,
    scope: Levels,
    emitted: EmittedView,
) -> Result<Seq<StepView>, GenErrorView>
    decreases count,
{
    if count <= 0 {
        Ok(Seq::empty())
    } else {
        match planned_items(items, count - 1, scope, emitted) {
            Ok(before) => match planned_item(
                items[count - 1],
                item_id(count - 1),
                scope,
                emitted_after_items(items, count - 1, emitted),
            ) {
                Ok(steps) => Ok(before + steps),
                Err(error) => Err(error),
            },
            Err(error) => Err(error),
        }
    }
}

/// The plan for a unit, as unit 0 of its program: its items are planned in a
/// level of their own over `scope`, with nothing emitted before.
pub open spec fn planned_mod(items: Seq<ItemView>, scope: Levels) -> Result<
    Seq<StepView>,
    GenErrorView,
> {
    planned_items(
        items,
        items.len() as int,
        scope.push(Map::empty()),
        EmittedView { functions: Seq::empty(), locals: Seq::empty() },
    )
}

/// Planning an expression touches the innermost level of the scope only,
/// and adds to what is emitted without changing what was there.
pub proof fn lemma_plan_frame(expr: ExprView, scope: Levels, emitted: EmittedView)
    ensures
        scope_after_plan(expr, scope).len() == scope.len(),
        scope_after_plan(expr, scope).drop_last() == scope.drop_last(),
        emitted_after_plan(expr, emitted).functions == emitted.functions,
        emitted_after_plan(expr, emitted).locals.len() >= emitted.locals.len(),
        emitted_after_plan(expr, emitted).locals.take(emitted.locals.len() as int)
            == emitted.locals,
    decreases expr,
{
    match expr {
        ExprView::Assignment(assignment) => {
            lemma_plan_frame(assignment.expr, scope, emitted);
            let inner = scope_after_plan(assignment.expr, scope);
            assert(bind(
                inner,
                assignment.var.name.fragment,
                Def::Local(assignment.var.name.location()),
            ).drop_last() =~= inner.drop_last());
            let before = emitted_after_plan(assignment.expr, emitted).locals;
            assert(before.push(assignment.var.name.location()).take(emitted.locals.len() as int)
                =~= before.take(emitted.locals.len() as int));
        },
        _ => {
            assert(emitted.locals.take(emitted.locals.len() as int) =~= emitted.locals);
        },
    }
}

/// Planning statements touches the innermost level of the scope only, and
/// adds to what is emitted without changing what was there.
pub proof fn lemma_plans_frame(exprs: Seq<ExprView>, count: int, scope: Levels, emitted: EmittedView)
    ensures
        scope_after_plans(exprs, count, scope).len() == scope.len(),
        scope_after_plans(exprs, count, scope).drop_last() == scope.drop_last(),
        emitted_after_plans(exprs, count, emitted).functions == emitted.functions,
        emitted_after_plans(exprs, count, emitted).locals.len() >= emitted.locals.len(),
        emitted_after_plans(exprs, count, emitted).locals.take(emitted.locals.len() as int)
            == emitted.locals,
    decreases count,
{
    if count <= 0 {
        assert(emitted.locals.take(emitted.locals.len() as int) =~= emitted.locals);
    } else {
        lemma_plans_frame(exprs, count - 1, scope, emitted);
        let before = emitted_after_plans(exprs, count - 1, emitted);
        lemma_plan_frame(
            exprs[count - 1],
            scope_after_plans(exprs, count - 1, scope),
            before,
        );
        let after = emitted_after_plans(exprs, count, emitted);
        assert(after.locals.take(emitted.locals.len() as int) =~= after.locals.take(
            before.locals.len() as int,
        ).take(emitted.locals.len() as int));
    }
}

/// The step for an integer literal: the constant with its bits.
pub fn gen_num(num: &Num) -> (steps: Vec<Step>)
    ensures
        steps_view(steps@) == seq![StepView::Const { bits: bits_of(num.value) }],
{
    let bits: u64 = if num.value >= 0 {
        num.value as u64
    } else {
        u64::MAX - ((-(num.value + 1)) as u64)
    };
    let mut steps: Vec<Step> = Vec::new();
    steps.push(Step::Const { bits });
    assert(steps_view(steps@) =~= seq![StepView::Const { bits: bits_of(num.value) }]);
    steps
}

/// The step for the use of a variable: a load from the slot of the local
/// that its name denotes. There is none where the name denotes no local or
/// the local has no slot.
pub fn gen_var(var: &Var, scope: &Scope, emitted: &Emitted) -> (result: Result<Vec<Step>, GenError>)
    ensures
        plan_view(result) == planned_var(var@, scope@, emitted@),
{
    match scope.read(var.name.fragment.as_str()) {
        Some(Def::Local(local)) => {
            if emitted.has_local(local) {
                let mut steps: Vec<Step> = Vec::new();
                steps.push(Step::Load { local });
                assert(steps_view(steps@) =~= seq![StepView::Load { local }]);
                return Ok(steps);
            }
        },
        _ => {},
    }
    Err(GenError::UnboundVariable { name: var.name.fragment.clone(), location: var.name.location() })
}

/// The step for a call: a call, without arguments, of the function that the
/// call is linked to. There is none where the call has no link or nothing
/// was emitted for the function.
pub fn gen_invoke(invoke: &Invoke, emitted: &Emitted) -> (result: Result<Vec<Step>, GenError>)
    ensures
        plan_view(result) == planned_invoke(invoke@, emitted@),
{
    match invoke.method_def {
        Some(id) => {
            if emitted.has_function(id) {
                let mut steps: Vec<Step> = Vec::new();
                steps.push(Step::Call { function: id, name: invoke.name.fragment.clone() });
                assert(steps_view(steps@) =~= seq![
                    StepView::Call { function: id, name: invoke.name.fragment@ },
                ]);
                Ok(steps)
            } else {
                Err(
                    GenError::UndefinedFunction {
                        name: invoke.name.fragment.clone(),
                        location: invoke.name.location(),
                    },
                )
            }
        },
        None => Err(
            GenError::UnresolvedCall {
                name: invoke.name.fragment.clone(),
                location: invoke.name.location(),
            },
        ),
    }
}

/// The steps for an assignment. Its variable is declared in the innermost
/// level of `scope` once the steps of the right-hand side are there; where
/// there are none nothing is declared.
pub fn gen_assignment(assignment: &Assignment, scope: &mut Scope, emitted: &mut Emitted) -> (result:
    Result<Vec<Step>, GenError>)
    ensures
        plan_view(result) == planned_expr(
            ExprView::Assignment(Box::new(assignment@)),
            old(scope)@,
            old(emitted)@,
        ),
        result is Ok ==> final(scope)@ == scope_after_plan(
            ExprView::Assignment(Box::new(assignment@)),
            old(scope)@,
        ) && final(emitted)@ == emitted_after_plan(
            ExprView::Assignment(Box::new(assignment@)),
            old(emitted)@,
        ),
        result is Err ==> final(scope)@ == old(scope)@ && final(emitted)@ == old(emitted)@,
    decreases *assignment,
{
    let local = assignment.var.name.location();
    match gen_expr(&assignment.expr, scope, emitted) {
        Ok(mut value) => {
            let mut steps: Vec<Step> = Vec::new();
            steps.push(Step::Alloca { local, name: assignment.var.name.fragment.clone() });
            let ghost right = value@;
            steps.append(&mut value);
            steps.push(Step::Store { local });
            emitted.add_local(local);
            scope.declare(assignment.var.name.fragment.as_str(), Def::Local(local));
            assert(steps_view(steps@) =~= seq![
                StepView::Alloca { local, name: assignment.var.name.fragment@ },
            ] + steps_view(right) + seq![StepView::Store { local }]);
            Ok(steps)
        },
        Err(error) => Err(error),
    }
}

/// The steps for an expression of any kind.
pub fn gen_expr(expr: &Expr, scope: &mut Scope, emitted: &mut Emitted) -> (result: Result<
    Vec<Step>,
    GenError,
>)
    ensures
        plan_view(result) == planned_expr(expr@, old(scope)@, old(emitted)@),
        result is Ok ==> final(scope)@ == scope_after_plan(expr@, old(scope)@) && final(emitted)@
            == emitted_after_plan(expr@, old(emitted)@),
        result is Err ==> final(scope)@ == old(scope)@ && final(emitted)@ == old(emitted)@,
    decreases *expr,
{
    match expr {
        Expr::Invoke(invoke) => gen_invoke(invoke, emitted),
        Expr::Num(num) => Ok(gen_num(num)),
        Expr::LiteralString(literal) => Err(
            GenError::UnsupportedLiteral { location: literal.span.location() },
        ),
        Expr::Assignment(assignment) => gen_assignment(assignment, scope, emitted),
        Expr::Var(var) => gen_var(var, scope, emitted),
    }
}

/// The text of a decimal digit.
fn digit_text(d: usize) -> (text: &'static str)
    requires
        d < 10,
    ensures
        text@ == seq![digit(d as nat)],
{
    proof {
        reveal_strlit("0");
        reveal_strlit("1");
        reveal_strlit("2");
        reveal_strlit("3");
        reveal_strlit("4");
        reveal_strlit("5");
        reveal_strlit("6");
        reveal_strlit("7");
        reveal_strlit("8");
        reveal_strlit("9");
    }
    let text = if d == 0 {
        "0"
    } else if d == 1 {
        "1"
    } else if d == 2 {
        "2"
    } else if d == 3 {
        "3"
    } else if d == 4 {
        "4"
    } else if d == 5 {
        "5"
    } else if d == 6 {
        "6"
    } else if d == 7 {
        "7"
    } else if d == 8 {
        "8"
    } else {
        "9"
    };
    assert(text@ =~= seq![digit(d as nat)]);
    text
}

/// The decimal numeral of `n`.
pub fn decimal_text(n: usize) -> (text: String)
    ensures
        text@ == decimal(n as nat),
{
    let mut text = String::from_str(digit_text(n % 10));
    let mut rest: usize = n / 10;
    assert(decimal(n as nat) =~= (if rest == 0 {
        text@
    } else {
        decimal(rest as nat) + text@
    }));
    while rest > 0
        invariant
            decimal(n as nat) == (if rest == 0 {
                text@
            } else {
                decimal(rest as nat) + text@
            }),
        decreases rest,
    {
        let ghost low = text@;
        let mut longer = String::from_str(digit_text(rest % 10));
        longer.append(text.as_str());
        text = longer;
        let ghost high = rest;
        rest = rest / 10;
        assert(decimal(high as nat) + low =~= (if rest == 0 {
            text@
        } else {
            decimal(rest as nat) + text@
        }));
    }
    text
}

/// The name of the block of the statement `index`.
pub fn block_name_text(index: usize) -> (name: String)
    ensures
        name@ == block_name(index as nat),
{
    proof {
        reveal_strlit("block_");
    }
    let mut name = String::from_str("block_");
    assert(name@ =~= seq!['b', 'l', 'o', 'c', 'k', '_']);
    let numeral = decimal_text(index);
    name.append(numeral.as_str());
    name
}

/// The steps for a function with the handle `id`.
///
/// The body gets a level of its own in `scope`, which is gone when the call
/// returns, with steps or without. Where there are no steps, nothing is
/// emitted either.
pub fn gen_func(func: &Method, id: DefId, scope: &mut Scope, emitted: &mut Emitted) -> (result:
    Result<Vec<Step>, GenError>)
    ensures
        plan_view(result) == planned_func(func@, id, old(scope)@, old(emitted)@),
        final(scope)@ == old(scope)@,
        result is Ok ==> final(emitted)@ == emitted_after_func(func@, id, old(emitted)@),
        result is Err ==> final(emitted)@ == old(emitted)@,
{
    let ghost outer = scope@;
    let ghost before = emitted@;
    let ghost exprs = func@.exprs;
    let functions: usize = emitted.functions.len();
    let locals: usize = emitted.locals.len();
    let mut steps: Vec<Step> = Vec::new();
    steps.push(Step::AddFunction { id, name: func.name.fragment.clone() });
    emitted.add_function(id);
    scope.enter();
    let ghost inner = outer.push(Map::empty());
    let ghost started = before.with_function(id);
    let ghost head = seq![StepView::AddFunction { id, name: func.name.fragment@ }];
    assert(steps_view(steps@) =~= head);
    assert(inner.drop_last() =~= outer);
    let n: usize = func.exprs.len();
    let mut k: usize = 0;
    while k < n
        invariant
            k <= n,
            n == func.exprs@.len(),
            exprs == func@.exprs,
            exprs.len() == n,
            outer == old(scope)@,
            before == old(emitted)@,
            inner == outer.push(Map::empty()),
            inner.drop_last() == outer,
            started == before.with_function(id),
            functions == before.functions.len(),
            locals == before.locals.len(),
            head == seq![StepView::AddFunction { id, name: func.name.fragment@ }],
            scope@ == scope_after_plans(exprs, k as int, inner),
            emitted@ == emitted_after_plans(exprs, k as int, started),
            planned_statements(exprs, k as int, inner, started) is Ok,
            steps_view(steps@) == head + planned_statements(exprs, k as int, inner, started)->Ok_0,
        decreases n - k,
    {
        proof {
            lemma_plans_frame(exprs, k as int, inner, started);
            assert(exprs[k as int] == func.exprs@[k as int]@);
        }
        let ghost sofar = steps@;
        match gen_expr(&func.exprs[k], scope, emitted) {
            Ok(mut value) => {
                steps.push(Step::AppendBlock { name: block_name_text(k) });
                if k > 0 {
                    steps.push(Step::Branch);
                }
                steps.push(Step::PositionAtEnd);
                steps.append(&mut value);
                if k == n - 1 {
                    steps.push(Step::Return);
                }
                assert(steps_view(steps@) =~= steps_view(sofar) + planned_statement(
                    exprs,
                    k as int,
                    inner,
                    started,
                )->Ok_0);
                assert(steps_view(steps@) =~= head + planned_statements(
                    exprs,
                    k + 1,
                    inner,
                    started,
                )->Ok_0);
            },
            Err(error) => {
                proof {
                    assert(started.functions.take(functions as int) =~= before.functions);
                    lemma_planned_statements_fail(exprs, k as int, n as int, inner, started);
                }
                emitted.rewind(functions, locals);
                scope.leave();
                return Err(error);
            },
        }
        k += 1;
    }
    proof {
        lemma_plans_frame(exprs, n as int, inner, started);
    }
    scope.leave();
    Ok(steps)
}

/// Where a statement has no plan, no longer run of statements has one, and
/// the error is that of the first such statement.
pub proof fn lemma_planned_statements_fail(
    exprs: Seq<ExprView>,
    index: int,
    count: int,
    scope: Levels,
    emitted: EmittedView,
)
    requires
        0 <= index < count,
        planned_statements(exprs, index, scope, emitted) is Ok,
        planned_statement(exprs, index, scope, emitted) is Err,
    ensures
        planned_statements(exprs, count, scope, emitted) == planned_statement(
            exprs,
            index,
            scope,
            emitted,
        ),
    decreases count,
{
    if count > index + 1 {
        lemma_planned_statements_fail(exprs, index, count - 1, scope, emitted);
    }
}

/// The steps for an item with the handle `id`: those of a function, and none
/// for a class.
pub fn gen_mod_unit(unit: &CompilationUnitItem, id: DefId, scope: &mut Scope, emitted: &mut Emitted) -> (result:
    Result<Vec<Step>, GenError>)
    ensures
        plan_view(result) == planned_item(unit@, id, old(scope)@, old(emitted)@),
        final(scope)@ == old(scope)@,
        result is Ok ==> final(emitted)@ == emitted_after_item(unit@, id, old(emitted)@),
        result is Err ==> final(emitted)@ == old(emitted)@,
{
    match unit {
        CompilationUnitItem::Method(func) => gen_func(func, id, scope, emitted),
        CompilationUnitItem::Class(_) => {
            let steps: Vec<Step> = Vec::new();
            assert(steps_view(steps@) =~= Seq::empty());
            Ok(steps)
        },
    }
}

/// Where an item has no plan, no longer run of items has one, and the error
/// is that of the first such item.
pub proof fn lemma_planned_items_fail(
    items: Seq<ItemView>,
    index: int,
    count: int,
    scope: Levels,
    emitted: EmittedView,
)
    requires
        0 <= index < count,
        planned_items(items, index, scope, emitted) is Ok,
        planned_item(
            items[index],
            item_id(index),
            scope,
            emitted_after_items(items, index, emitted),
        ) is Err,
    ensures
        planned_items(items, count, scope, emitted) == planned_item(
            items[index],
            item_id(index),
            scope,
            emitted_after_items(items, index, emitted),
        ),
    decreases count,
{
    if count > index + 1 {
        lemma_planned_items_fail(items, index, count - 1, scope, emitted);
    }
}

/// The steps for a unit, as unit 0 of its program.
///
/// The items get a level of their own in `scope`, which is gone when the
/// call returns, with steps or without.
pub fn gen_mod(module: &CompilationUnit, scope: &mut Scope) -> (result: Result<Vec<Step>, GenError>)
    ensures
        plan_view(result) == planned_mod(module@, old(scope)@),
        final(scope)@ == old(scope)@,
{
    let ghost outer = scope@;
    let ghost items = module@;
    let mut emitted = Emitted::new();
    let ghost nothing = emitted@;
    let mut steps: Vec<Step> = Vec::new();
    scope.enter();
    let ghost inner = outer.push(Map::empty());
    assert(inner.drop_last() =~= outer);
    assert(steps_view(steps@) =~= Seq::empty());
    let n: usize = module.items.len();
    let mut i: usize = 0;
    while i < n
        invariant
            i <= n,
            n == module.items@.len(),
            items == module@,
            items.len() == n,
            outer == old(scope)@,
            inner == outer.push(Map::empty()),
            inner.drop_last() == outer,
            nothing == (EmittedView { functions: Seq::empty(), locals: Seq::empty() }),
            scope@ == inner,
            emitted@ == emitted_after_items(items, i as int, nothing),
            planned_items(items, i as int, inner, nothing) is Ok,
            steps_view(steps@) == planned_items(items, i as int, inner, nothing)->Ok_0,
        decreases n - i,
    {
        proof {
            assert(items[i as int] == module.items@[i as int]@);
        }
        let ghost sofar = steps@;
        match gen_mod_unit(&module.items[i], DefId { unit: 0, item: i }, scope, &mut emitted) {
            Ok(mut unit) => {
                let ghost added = unit@;
                steps.append(&mut unit);
                assert(steps_view(steps@) =~= steps_view(sofar) + steps_view(added));
            },
            Err(error) => {
                proof {
                    lemma_planned_items_fail(items, i as int, n as int, inner, nothing);
                }
                scope.leave();
                return Err(error);
            },
        }
        i += 1;
    }
    scope.leave();
    Ok(steps)
}

} // verus!
