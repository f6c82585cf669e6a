//! From syntax to the tree that resolution decorates.
//!
//! Each `build_` function copies a piece of syntax into the tree, with the
//! same names at the same places and with every link empty. The functions
//! `unlinked_` say, over the views of the tree, what is built.
use vstd::prelude::*;
use crate::ast;
use crate::tree::{
    exprs_view, items_view, methods_view, params_view, Assignment, AssignmentView, Class,
    ClassView, CompilationUnit, CompilationUnitItem, Expr, ExprView, Invoke, InvokeView, ItemView,
    LiteralString, LiteralStringView, Location, Method, MethodView, Num, Param, ParamView, Span,
    SpanView, Type, TypeView, Var, VarView,
};

verus! {

/// The text and place of a name.
pub open spec fn unlinked_id(id: ast::Id) -> SpanView {
    SpanView { line: id.line, col: id.col, fragment: id.name@ }
}

/// A type annotation without a link.
pub open spec fn unlinked_type(tpe: ast::Type) -> TypeView {
    TypeView {
        span: match tpe.id {
            Some(id) => Some(unlinked_id(id)),
            None => None,
        },
        class_def: None,
    }
}

/// A parameter whose declared type has no link.
pub open spec fn unlinked_param(param: ast::Param) -> ParamView {
    ParamView { name: unlinked_id(param.id), tpe: unlinked_type(param.tpe) }
}

/// Parameters whose declared types have no link, in order.
pub open spec fn unlinked_params(params: Seq<ast::Param>) -> Seq<ParamView> {
    Seq::new(params.len(), |i: int| unlinked_param(params[i]))
}

/// An integer literal.
pub open spec fn unlinked_num(num: ast::Num) -> Num {
    Num { location: Location { line: num.line, col: num.col }, value: num.value }
}

/// An occurrence of a variable without a link.
pub open spec fn unlinked_var(var: ast::Var) -> VarView {
    VarView { name: unlinked_id(var.id), def: None }
}

/// An expression in which no reference has a link.
pub open spec fn unlinked_expr(expr: ast::Expr) -> ExprView
    decreases expr,
{
    match expr {
        ast::Expr::Invoke(invoke) => ExprView::Invoke(Box::new(unlinked_invoke(invoke))),
        ast::Expr::Num(num) => ExprView::Num(unlinked_num(num)),
        ast::Expr::Str(literal) => ExprView::LiteralString(
            LiteralStringView { span: unlinked_id(literal.text) },
        ),
        ast::Expr::Assignment(assignment) => ExprView::Assignment(
            Box::new(unlinked_assignment(assignment)),
        ),
        ast::Expr::Var(var) => ExprView::Var(unlinked_var(var)),
    }
}

/// A call in which no reference has a link.
pub open spec fn unlinked_invoke(invoke: ast::Invoke) -> InvokeView
    decreases invoke,
{
    InvokeView {
        invoker_opt: match invoke.invoker_opt {
            Some(invoker) => Some(unlinked_expr(*invoker)),
            None => None,
        },
        name: unlinked_id(invoke.id),
        args: unlinked_exprs(invoke.args@),
        method_def: None,
    }
}

/// An assignment in which no reference has a link.
pub open spec fn unlinked_assignment(assignment: ast::Assignment) -> AssignmentView
    decreases assignment,
{
    AssignmentView { var: unlinked_var(assignment.var), expr: unlinked_expr(*assignment.expr) }
}

/// Expressions in which no reference has a link, in order.
pub open spec fn unlinked_exprs(exprs: Seq<ast::Expr>) -> Seq<ExprView>
    decreases exprs,
{
    Seq::new(
        exprs.len(),
        |i: int|
            if 0 <= i < exprs.len() {
                unlinked_expr(exprs[i])
            } else {
                arbitrary()
            },
    )
}

/// A method in which no reference has a link and which has no owner.
pub open spec fn unlinked_func(func: ast::Func) -> MethodView {
    MethodView {
        name: unlinked_id(func.id),
        params: unlinked_params(func.params@),
        exprs: unlinked_exprs(func.exprs@),
        return_type: unlinked_type(func.return_type),
        parent_class: None,
    }
}

/// Methods in which no reference has a link, in order.
pub open spec fn unlinked_funcs(funcs: Seq<ast::Func>) -> Seq<MethodView> {
    Seq::new(funcs.len(), |i: int| unlinked_func(funcs[i]))
}

/// A class in which no reference has a link.
pub open spec fn unlinked_class(class: ast::Class) -> ClassView {
    ClassView {
        name: unlinked_id(class.id),
        params: unlinked_params(class.params@),
        methods: unlinked_funcs(class.methods@),
    }
}

/// A top-level item in which no reference has a link.
pub open spec fn unlinked_mod_unit(unit: ast::ModUnit) -> ItemView {
    match unit {
        ast::ModUnit::Func(func) => ItemView::Method(unlinked_func(func)),
        ast::ModUnit::Class(class) => ItemView::Class(unlinked_class(class)),
    }
}

/// A compilation unit in which no reference has a link.
pub open spec fn unlinked_mod(m: ast::Mod) -> Seq<ItemView> {
    Seq::new(m.units@.len(), |i: int| unlinked_mod_unit(m.units@[i]))
}

/// Builds the name of the tree from a name of the syntax.
pub fn build_id(id: &ast::Id) -> (span: Span)
    ensures
        span@ == unlinked_id(*id),
{
    Span { line: id.line, col: id.col, fragment: id.name.clone() }
}

/// Builds an integer literal.
pub fn build_num(num: &ast::Num) -> (built: Num)
    ensures
        built == unlinked_num(*num),
{
    Num { location: Location { line: num.line, col: num.col }, value: num.value }
}

/// Builds an occurrence of a variable, without a link.
pub fn build_var(var: &ast::Var) -> (built: Var)
    ensures
        built@ == unlinked_var(*var),
{
    Var { name: build_id(&var.id), def: None }
}

/// Builds a type annotation, without a link.
pub fn build_type(tpe: &ast::Type) -> (built: Type)
    ensures
        built@ == unlinked_type(*tpe),
{
    Type {
        span: match &tpe.id {
            Some(id) => Some(build_id(id)),
            None => None,
        },
        class_def: None,
    }
}

/// Builds parameters, in order.
pub fn build_params(params: &Vec<ast::Param>) -> (built: Vec<Param>)
    ensures
        params_view(built@) == unlinked_params(params@),
{
    let mut built: Vec<Param> = Vec::new();
    let n: usize = params.len();
    let mut i: usize = 0;
    while i < n
        invariant
            i <= n,
            n == params@.len(),
            built@.len() == i,
            forall|j: int| 0 <= j < i ==> #[trigger] built@[j]@ == unlinked_param(params@[j]),
        decreases n - i,
    {
        let param = &params[i];
        built.push(Param { name: build_id(&param.id), tpe: build_type(&param.tpe) });
        i += 1;
    }
    assert forall|j: int| 0 <= j < n implies params_view(built@)[j] == unlinked_params(
        params@,
    )[j] by {
        assert(built@[j]@ == unlinked_param(params@[j]));
    }
    assert(params_view(built@) =~= unlinked_params(params@));
    built
}

/// Builds a call: its receiver, its name and its arguments, with no link.
pub fn build_invoke(invoke: &ast::Invoke) -> (built: Invoke)
    ensures
        built@ == unlinked_invoke(*invoke),
    decreases *invoke,
{
    let invoker_opt: Option<Expr> = match &invoke.invoker_opt {
        Some(invoker) => Some(build_expr(invoker)),
        None => None,
    };
    let args = build_exprs(&invoke.args);
    Invoke { invoker_opt, name: build_id(&invoke.id), args, method_def: None }
}

/// Builds an assignment: the variable it declares and its right-hand side.
pub fn build_assignment(assignment: &ast::Assignment) -> (built: Assignment)
    ensures
        built@ == unlinked_assignment(*assignment),
    decreases *assignment,
{
    Assignment {
        var: Box::new(build_var(&assignment.var)),
        expr: Box::new(build_expr(&assignment.expr)),
    }
}

/// Builds an expression of any kind.
pub fn build_expr(expr: &ast::Expr) -> (built: Expr)
    ensures
        built@ == unlinked_expr(*expr),
    decreases *expr,
{
    match expr {
        ast::Expr::Invoke(invoke) => Expr::Invoke(Box::new(build_invoke(invoke))),
        ast::Expr::Num(num) => Expr::Num(Box::new(build_num(num))),
        ast::Expr::Str(literal) => Expr::LiteralString(
            Box::new(LiteralString { span: build_id(&literal.text) }),
        ),
        ast::Expr::Assignment(assignment) => Expr::Assignment(
            Box::new(build_assignment(assignment)),
        ),
        ast::Expr::Var(var) => Expr::Var(Box::new(build_var(var))),
    }
}

/// Builds expressions, in order.
pub fn build_exprs(exprs: &Vec<ast::Expr>) -> (built: Vec<Expr>)
    ensures
        exprs_view(built@) == unlinked_exprs(exprs@),
    decreases *exprs,
{
    let mut built: Vec<Expr> = Vec::new();
    let n: usize = exprs.len();
    let mut i: usize = 0;
    while i < n
        invariant
            i <= n,
            n == exprs@.len(),
            built@.len() == i,
            forall|j: int| 0 <= j < i ==> #[trigger] built@[j]@ == unlinked_expr(exprs@[j]),
        decreases n - i,
    {
        built.push(build_expr(&exprs[i]));
        i += 1;
    }
    assert forall|j: int| 0 <= j < n implies exprs_view(built@)[j] == unlinked_exprs(exprs@)[j] by {
        assert(built@[j]@ == unlinked_expr(exprs@[j]));
    }
    assert(exprs_view(built@) =~= unlinked_exprs(exprs@));
    built
}

/// Builds a method: its name, its parameters, its return type and its body.
pub fn build_func(func: &ast::Func) -> (built: Method)
    ensures
        built@ == unlinked_func(*func),
{
    Method {
        name: build_id(&func.id),
        params: build_params(&func.params),
        exprs: build_exprs(&func.exprs),
        return_type: build_type(&func.return_type),
        parent_class: None,
    }
}

/// Builds a class: its name, its parameters and its methods.
pub fn build_class(class: &ast::Class) -> (built: Class)
    ensures
        built@ == unlinked_class(*class),
{
    let mut methods: Vec<Method> = Vec::new();
    let n: usize = class.methods.len();
    let mut i: usize = 0;
    while i < n
        invariant
            i <= n,
            n == class.methods@.len(),
            methods@.len() == i,
            forall|j: int| 0 <= j < i ==> #[trigger] methods@[j]@ == unlinked_func(class.methods@[j]),
        decreases n - i,
    {
        methods.push(build_func(&class.methods[i]));
        i += 1;
    }
    assert forall|j: int| 0 <= j < n implies methods_view(methods@)[j] == unlinked_funcs(
        class.methods@,
    )[j] by {
        assert(methods@[j]@ == unlinked_func(class.methods@[j]));
    }
    assert(methods_view(methods@) =~= unlinked_funcs(class.methods@));
    Class { name: build_id(&class.id), params: build_params(&class.params), methods }
}

/// Builds a top-level item.
pub fn build_mod_unit(unit: &ast::ModUnit) -> (built: CompilationUnitItem)
    ensures
        built@ == unlinked_mod_unit(*unit),
{
    match unit {
        ast::ModUnit::Func(func) => CompilationUnitItem::Method(build_func(func)),
        ast::ModUnit::Class(class) => CompilationUnitItem::Class(build_class(class)),
    }
}

/// Builds a compilation unit: its items, in source order.
pub fn build_mod(m: &ast::Mod) -> (built: CompilationUnit)
    ensures
        built@ == unlinked_mod(*m),
{
    let mut items: Vec<CompilationUnitItem> = Vec::new();
    let n: usize = m.units.len();
    let mut i: usize = 0;
    while i < n
        invariant
            i <= n,
            n == m.units@.len(),
            items@.len() == i,
            forall|j: int| 0 <= j < i ==> #[trigger] items@[j]@ == unlinked_mod_unit(m.units@[j]),
        decreases n - i,
    {
        items.push(build_mod_unit(&m.units[i]));
        i += 1;
    }
    assert forall|j: int| 0 <= j < n implies items_view(items@)[j] == unlinked_mod(*m)[j] by {
        assert(items@[j]@ == unlinked_mod_unit(m.units@[j]));
    }
    assert(items_view(items@) =~= unlinked_mod(*m));
    CompilationUnit { items }
}

} // verus!
