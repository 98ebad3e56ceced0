//! A ScratchGraph project as decompilation reads it: the stage and the
//! sprites, each with its custom procedures, whose bodies are statement
//! trees over expressions.

use vstd::prelude::*;

use crate::strings::owned;

verus! {

/// A literal value. A number is held as its IEEE-754 bit pattern.
#[derive(Debug, Clone)]
pub enum Value {
    Number(u64),
    String(String),
    Bool(bool),
}

/// An expression.
#[derive(Debug)]
pub enum Expr {
    Literal(Value),
    Variable(String),
    ProcedureParam(String),
    Operator { opcode: String, args: Vec<Expr> },
    /// Any other kind of expression.
    Other,
}

/// A statement.
#[derive(Debug)]
pub enum Stmt {
    SetVariable { var: String, value: Expr },
    ChangeVariable { var: String, delta: Expr },
    Call { proc: String, args: Vec<Expr> },
    Broadcast { message: Expr },
    If { condition: Expr, then_body: Vec<Stmt>, else_body: Vec<Stmt> },
    Repeat { times: Expr, body: Vec<Stmt> },
    RepeatUntil { condition: Expr, body: Vec<Stmt> },
    Forever { body: Vec<Stmt> },
    Stop,
    /// Any other kind of statement (list and frame operations, bare
    /// expressions).
    Other,
}

/// A procedure parameter.
#[derive(Debug, Clone)]
pub struct Param {
    pub name: String,
}

/// A procedure's name and parameters.
#[derive(Debug)]
pub struct Prototype {
    pub name: String,
    pub params: Vec<Param>,
}

/// A custom procedure.
#[derive(Debug)]
pub struct Procedure {
    pub prototype: Prototype,
    pub body: Vec<Stmt>,
}

/// The stage.
#[derive(Debug)]
pub struct Stage {
    pub name: String,
    pub procedures: Vec<Procedure>,
}

/// A sprite.
#[derive(Debug)]
pub struct Sprite {
    pub name: String,
    pub procedures: Vec<Procedure>,
}

/// A project: the stage and the sprites.
#[derive(Debug)]
pub struct Project {
    pub stage: Stage,
    pub sprites: Vec<Sprite>,
}

impl Procedure {
    /// A procedure named `name` with parameters `params` and body `body`.
    pub fn new(name: &str, params: Vec<String>, body: Vec<Stmt>) -> (r: Self)
        ensures
            r.prototype.name@ == name@,
            r.prototype.params@.len() == params@.len(),
            forall|i: int| 0 <= i < params@.len() ==> #[trigger] r.prototype.params@[i].name == params@[i],
            r.body == body,
    {
        let mut ps: Vec<Param> = Vec::new();
        let mut i: usize = 0;
        while i < params.len()
            invariant
                i <= params@.len(),
                ps@.len() == i,
                forall|q: int| 0 <= q < i ==> #[trigger] ps@[q].name == params@[q],
            decreases params.len() - i,
        {
            ps.push(Param { name: params[i].clone() });
            i = i + 1;
        }
        Procedure { prototype: Prototype { name: owned(name), params: ps }, body }
    }
}

impl Stage {
    /// A stage named `name` without procedures.
    pub fn new(name: &str) -> (r: Self)
        ensures
            r.name@ == name@,
            r.procedures@.len() == 0,
    {
        Stage { name: owned(name), procedures: Vec::new() }
    }
}

impl Sprite {
    /// A sprite named `name` without procedures.
    pub fn new(name: &str) -> (r: Self)
        ensures
            r.name@ == name@,
            r.procedures@.len() == 0,
    {
        Sprite { name: owned(name), procedures: Vec::new() }
    }
}

impl Project {
    /// A project with a stage named `Stage` and no sprites.
    pub fn new() -> (r: Self)
        ensures
            r.stage.name@ == "Stage"@,
            r.stage.procedures@.len() == 0,
            r.sprites@.len() == 0,
    {
        Project { stage: Stage::new("Stage"), sprites: Vec::new() }
    }
}

} // verus!
