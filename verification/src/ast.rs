//! The syntax of a module as a front end hands it over: names and places,
//! and no slot for a link.
use vstd::prelude::*;

verus! {

/// A name and the place where it stands.
#[derive(Debug, PartialEq, Eq)]
pub struct Id {
    pub name: String,
    pub line: u32,
    pub col: u32,
}

/// A type annotation; `id` is absent where the source gives none.
#[derive(Debug, PartialEq, Eq)]
pub struct Type {
    pub id: Option<Id>,
}

#[derive(Debug, PartialEq, Eq)]
pub struct Param {
    pub id: Id,
    pub tpe: Type,
}

#[derive(Debug, PartialEq, Eq)]
pub struct Num {
    pub value: i32,
    pub line: u32,
    pub col: u32,
}

/// A string literal; `text` is what stands between the quotes.
#[derive(Debug, PartialEq, Eq)]
pub struct Str {
    pub text: Id,
}

#[derive(Debug, PartialEq, Eq)]
pub struct Var {
    pub id: Id,
}

#[derive(Debug, PartialEq, Eq)]
pub struct Invoke {
    pub invoker_opt: Option<Box<Expr>>,
    pub id: Id,
    pub args: Vec<Expr>,
}

#[derive(Debug, PartialEq, Eq)]
pub struct Assignment {
    pub var: Var,
    pub expr: Box<Expr>,
}

#[derive(Debug, PartialEq, Eq)]
pub enum Expr {
    Invoke(Invoke),
    Num(Num),
    Str(Str),
    Assignment(Assignment),
    Var(Var),
}

#[derive(Debug, PartialEq, Eq)]
pub struct Func {
    pub id: Id,
    pub params: Vec<Param>,
    pub return_type: Type,
    pub exprs: Vec<Expr>,
}

#[derive(Debug, PartialEq, Eq)]
pub struct Class {
    pub id: Id,
    pub params: Vec<Param>,
    pub methods: Vec<Func>,
}

#[derive(Debug, PartialEq, Eq)]
pub enum ModUnit {
    Func(Func),
    Class(Class),
}

#[derive(Debug, PartialEq, Eq)]
pub struct Mod {
    pub units: Vec<ModUnit>,
}

} // verus!
