//! The syntax tree that resolution decorates, and its mathematical model.
//!
//! Every reference site of the tree (a type annotation, a call, a use of a
//! variable) has a slot for a link to the definition it denotes. A link is a
//! handle, never a borrow: [`DefId`] names a top-level definition by the place
//! it has in the program, and [`Def`] is what a scope binds a name to.
//!
//! Each tree type has a view in which strings are sequences of characters and
//! vectors are sequences. The contracts of the library are stated over these
//! views.
use vstd::prelude::*;

verus! {

/// A position in a source file: line and column of the first character.
#[derive(Debug, Clone, Copy, PartialEq, Eq, Hash, Structural)]
pub struct Location {
    pub line: u32,
    pub col: u32,
}

/// The handle of a top-level definition: the position of its compilation unit
/// in the program and of the item in that unit.
#[derive(Debug, Clone, Copy, PartialEq, Eq, Hash, Structural)]
pub struct DefId {
    pub unit: usize,
    pub item: usize,
}

/// What a name can be bound to.
#[derive(Debug, Clone, Copy, PartialEq, Eq, Hash, Structural)]
pub enum Def {
    /// A top-level class.
    Class(DefId),
    /// A top-level method.
    Method(DefId),
    /// A parameter or a local variable, known by the place where its name was
    /// declared.
    Local(Location),
}

/// A piece of source text together with the place where it starts.
#[derive(Debug, PartialEq, Eq)]
pub struct Span {
    pub line: u32,
    pub col: u32,
    pub fragment: String,
}

pub struct SpanView {
    pub line: u32,
    pub col: u32,
    pub fragment: Seq<char>,
}

impl SpanView {
    pub open spec fn location(self) -> Location {
        Location { line: self.line, col: self.col }
    }
}

impl View for Span {
    type V = SpanView;

    open spec fn view(&self) -> SpanView {
        SpanView { line: self.line, col: self.col, fragment: self.fragment@ }
    }
}

impl Span {
    /// The place where the text starts.
    pub fn location(&self) -> (location: Location)
        ensures
            location == self@.location(),
    {
        Location { line: self.line, col: self.col }
    }
}

/// A type annotation. `span` is absent where the source gives no annotation;
/// `class_def` is the link to the class that the annotation denotes.
#[derive(Debug, PartialEq, Eq)]
pub struct Type {
    pub span: Option<Span>,
    pub class_def: Option<DefId>,
}

pub struct TypeView {
    pub span: Option<SpanView>,
    pub class_def: Option<DefId>,
}

impl View for Type {
    type V = TypeView;

    open spec fn view(&self) -> TypeView {
        TypeView {
            span: match self.span {
                Some(span) => Some(span@),
                None => None,
            },
            class_def: self.class_def,
        }
    }
}

/// A parameter of a class or of a method: its name and its declared type.
#[derive(Debug, PartialEq, Eq)]
pub struct Param {
    pub name: Span,
    pub tpe: Type,
}

pub struct ParamView {
    pub name: SpanView,
    pub tpe: TypeView,
}

impl View for Param {
    type V = ParamView;

    open spec fn view(&self) -> ParamView {
        ParamView { name: self.name@, tpe: self.tpe@ }
    }
}

/// The views of a sequence of parameters, in order.
pub open spec fn params_view(params: Seq<Param>) -> Seq<ParamView> {
    Seq::new(params.len(), |i: int| params[i]@)
}

/// An integer literal and the place where it stands.
#[derive(Debug, Clone, Copy, PartialEq, Eq, Structural)]
pub struct Num {
    pub location: Location,
    pub value: i32,
}

/// A string literal; the fragment of its span is the text between the quotes.
#[derive(Debug, PartialEq, Eq)]
pub struct LiteralString {
    pub span: Span,
}

pub struct LiteralStringView {
    pub span: SpanView,
}

impl View for LiteralString {
    type V = LiteralStringView;

    open spec fn view(&self) -> LiteralStringView {
        LiteralStringView { span: self.span@ }
    }
}

/// An occurrence of a variable's name. `def` is the link to the binding that
/// the name denotes at this place.
#[derive(Debug, PartialEq, Eq)]
pub struct Var {
    pub name: Span,
    pub def: Option<Def>,
}

pub struct VarView {
    pub name: SpanView,
    pub def: Option<Def>,
}

impl View for Var {
    type V = VarView;

    open spec fn view(&self) -> VarView {
        VarView { name: self.name@, def: self.def }
    }
}

/// An assignment. It declares `var` as a local of the enclosing body.
#[derive(Debug, PartialEq, Eq)]
pub struct Assignment {
    pub var: Box<Var>,
    pub expr: Box<Expr>,
}

/// A call. `invoker_opt` is the receiver, absent for a call of a free method;
/// `method_def` is the link to the method that is called.
#[derive(Debug, PartialEq, Eq)]
pub struct Invoke {
    pub invoker_opt: Option<Expr>,
    pub name: Span,
    pub args: Vec<Expr>,
    pub method_def: Option<DefId>,
}

#[derive(Debug, PartialEq, Eq)]
pub enum Expr {
    Invoke(Box<Invoke>),
    Num(Box<Num>),
    LiteralString(Box<LiteralString>),
    Assignment(Box<Assignment>),
    Var(Box<Var>),
}

pub struct AssignmentView {
    pub var: VarView,
    pub expr: ExprView,
}

pub struct InvokeView {
    pub invoker_opt: Option<ExprView>,
    pub name: SpanView,
    pub args: Seq<ExprView>,
    pub method_def: Option<DefId>,
}

pub enum ExprView {
    Invoke(Box<InvokeView>),
    Num(Num),
    LiteralString(LiteralStringView),
    Assignment(Box<AssignmentView>),
    Var(VarView),
}

/// The view of an expression.
pub open spec fn expr_view(expr: Expr) -> ExprView
    decreases expr,
{
    match expr {
        Expr::Invoke(invoke) => ExprView::Invoke(Box::new(invoke_view(*invoke))),
        Expr::Num(num) => ExprView::Num(*num),
        Expr::LiteralString(literal) => ExprView::LiteralString(literal@),
        Expr::Assignment(assignment) => ExprView::Assignment(
            Box::new(assignment_view(*assignment)),
        ),
        Expr::Var(var) => ExprView::Var(var@),
    }
}

/// The view of a call.
pub open spec fn invoke_view(invoke: Invoke) -> InvokeView
    decreases invoke,
{
    InvokeView {
        invoker_opt: match invoke.invoker_opt {
            Some(invoker) => Some(expr_view(invoker)),
            None => None,
        },
        name: invoke.name@,
        args: exprs_view(invoke.args@),
        method_def: invoke.method_def,
    }
}

/// The view of an assignment.
pub open spec fn assignment_view(assignment: Assignment) -> AssignmentView
    decreases assignment,
{
    AssignmentView { var: assignment.var@, expr: expr_view(*assignment.expr) }
}

/// The views of a sequence of expressions, in order.
pub open spec fn exprs_view(exprs: Seq<Expr>) -> Seq<ExprView>
    decreases exprs,
{
    Seq::new(
        exprs.len(),
        |i: int|
            if 0 <= i < exprs.len() {
                expr_view(exprs[i])
            } else {
                arbitrary()
            },
    )
}

impl View for Expr {
    type V = ExprView;

    open spec fn view(&self) -> ExprView {
        expr_view(*self)
    }
}

impl View for Invoke {
    type V = InvokeView;

    open spec fn view(&self) -> InvokeView {
        invoke_view(*self)
    }
}

impl View for Assignment {
    type V = AssignmentView;

    open spec fn view(&self) -> AssignmentView {
        assignment_view(*self)
    }
}

/// A method definition. `parent_class` is the link to the class that owns the
/// method, absent for a free method.
#[derive(Debug, PartialEq, Eq)]
pub struct Method {
    pub name: Span,
    pub params: Vec<Param>,
    pub exprs: Vec<Expr>,
    pub return_type: Type,
    pub parent_class: Option<DefId>,
}

pub struct MethodView {
    pub name: SpanView,
    pub params: Seq<ParamView>,
    pub exprs: Seq<ExprView>,
    pub return_type: TypeView,
    pub parent_class: Option<DefId>,
}

impl View for Method {
    type V = MethodView;

    open spec fn view(&self) -> MethodView {
        MethodView {
            name: self.name@,
            params: params_view(self.params@),
            exprs: exprs_view(self.exprs@),
            return_type: self.return_type@,
            parent_class: self.parent_class,
        }
    }
}

/// The views of a sequence of methods, in order.
pub open spec fn methods_view(methods: Seq<Method>) -> Seq<MethodView> {
    Seq::new(methods.len(), |i: int| methods[i]@)
}

/// A class definition: its name, the parameters of its constructor and the
/// methods it owns.
#[derive(Debug, PartialEq, Eq)]
pub struct Class {
    pub name: Span,
    pub params: Vec<Param>,
    pub methods: Vec<Method>,
}

pub struct ClassView {
    pub name: SpanView,
    pub params: Seq<ParamView>,
    pub methods: Seq<MethodView>,
}

impl View for Class {
    type V = ClassView;

    open spec fn view(&self) -> ClassView {
        ClassView {
            name: self.name@,
            params: params_view(self.params@),
            methods: methods_view(self.methods@),
        }
    }
}

/// A top-level item of a compilation unit.
#[derive(Debug, PartialEq, Eq)]
pub enum CompilationUnitItem {
    Class(Class),
    Method(Method),
}

pub enum ItemView {
    Class(ClassView),
    Method(MethodView),
}

impl ItemView {
    /// The name under which the item is defined.
    pub open spec fn name(self) -> SpanView {
        match self {
            ItemView::Class(class) => class.name,
            ItemView::Method(method) => method.name,
        }
    }

    /// The binding that stands for the item when it has the handle `id`.
    pub open spec fn def(self, id: DefId) -> Def {
        match self {
            ItemView::Class(_) => Def::Class(id),
            ItemView::Method(_) => Def::Method(id),
        }
    }
}

impl View for CompilationUnitItem {
    type V = ItemView;

    open spec fn view(&self) -> ItemView {
        match self {
            CompilationUnitItem::Class(class) => ItemView::Class(class@),
            CompilationUnitItem::Method(method) => ItemView::Method(method@),
        }
    }
}

impl CompilationUnitItem {
    /// The name under which the item is defined.
    pub fn name(&self) -> (name: &Span)
        ensures
            name@ == self@.name(),
    {
        match self {
            CompilationUnitItem::Class(class) => &class.name,
            CompilationUnitItem::Method(method) => &method.name,
        }
    }

    /// The binding that stands for the item when it has the handle `id`.
    pub fn def(&self, id: DefId) -> (def: Def)
        ensures
            def == self@.def(id),
    {
        match self {
            CompilationUnitItem::Class(_) => Def::Class(id),
            CompilationUnitItem::Method(_) => Def::Method(id),
        }
    }
}

/// The items of one source file, in source order.
#[derive(Debug, PartialEq, Eq)]
pub struct CompilationUnit {
    pub items: Vec<CompilationUnitItem>,
}

/// The views of a sequence of items, in order.
pub open spec fn items_view(items: Seq<CompilationUnitItem>) -> Seq<ItemView> {
    Seq::new(items.len(), |i: int| items[i]@)
}

impl View for CompilationUnit {
    type V = Seq<ItemView>;

    open spec fn view(&self) -> Seq<ItemView> {
        items_view(self.items@)
    }
}

/// One source file of a program: where it was read from and what it holds.
#[derive(Debug, PartialEq, Eq)]
pub struct LilitFile {
    pub path: String,
    pub unit: CompilationUnit,
}

impl View for LilitFile {
    type V = Seq<ItemView>;

    open spec fn view(&self) -> Seq<ItemView> {
        self.unit@
    }
}

} // verus!
