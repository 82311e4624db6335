use vstd::prelude::*;

verus! {

/// A jump target.
#[derive(Clone, Debug)]
pub struct Label {
    pub name: String,
}

impl Label {
    pub fn new(name: String) -> (r: Self)
        ensures
            r.name == name,
    {
        Label { name }
    }
}

/// A value: a pseudo-register, a constant or a string.
#[derive(Clone, Debug)]
pub enum Val {
    Var(String),
    Const(u64),
    Str(String),
}

#[derive(Clone, Copy, Debug)]
pub enum BinOp {
    And,
    Or,
    Equ,
    Neq,
    Lt,
    Leq,
    Gt,
    Geq,
    Add,
    Sub,
    Mul,
    Div,
}

#[derive(Clone, Copy, Debug)]
pub enum UnaryOp {
    Neg,
    Not,
}

#[derive(Clone, Debug)]
pub enum Instruction {
    /// Destination, operator and operands.
    Bin(String, BinOp, Val, Val),
    Unary(String, UnaryOp, Val),
    Mov(String, Val),
    /// Stores the last value at the given offset of the first one.
    AssignArray(Val, u64, Val),
    /// Loads the word at the given offset of a value.
    Access(String, Val, u64),
    Jump(Label),
    Jumpif(Val, Label),
    JumpifNot(Val, Label),
    /// Destinations of the two returned words, whether the function is
    /// native, the function, and the arguments.
    Call(Option<(String, String)>, bool, String, Vec<Val>),
    Return(Val, Val),
}

#[derive(Clone, Debug)]
pub enum Statement {
    Label(Label),
    Inst(Instruction),
}

pub struct Block {
    pub stmts: Vec<Statement>,
}

impl Block {
    pub fn new(stmts: Vec<Statement>) -> (r: Self)
        ensures
            r.stmts == stmts,
    {
        Block { stmts }
    }
}

/// A function: its name, its arguments, its pseudo-registers and its body.
pub struct Function {
    pub name: String,
    pub args: Vec<String>,
    pub vars: Vec<String>,
    pub body: Block,
}

impl Function {
    pub fn new(name: String, args: Vec<String>, vars: Vec<String>, body: Block) -> (r: Self)
        ensures
            r.name == name,
            r.args == args,
            r.vars == vars,
            r.body == body,
    {
        Function { name, args, vars, body }
    }
}

/// A program: its global pseudo-registers and its functions.
pub struct Source {
    pub globals: Vec<String>,
    pub functions: Vec<Function>,
}

impl Source {
    pub fn new(globals: Vec<String>, functions: Vec<Function>) -> (r: Self)
        ensures
            r.globals == globals,
            r.functions == functions,
    {
        Source { globals, functions }
    }
}


/// The mathematical value of a value.
pub enum ValV {
    Var(Seq<char>),
    Const(u64),
    Str(Seq<char>),
}

impl View for Val {
    type V = ValV;

    open spec fn view(&self) -> ValV {
        match self {
            Val::Var(s) => ValV::Var(s@),
            Val::Const(i) => ValV::Const(*i),
            Val::Str(s) => ValV::Str(s@),
        }
    }
}

/// The mathematical value of an instruction (labels by their names).
pub enum InstV {
    Bin(Seq<char>, BinOp, ValV, ValV),
    Unary(Seq<char>, UnaryOp, ValV),
    Mov(Seq<char>, ValV),
    AssignArray(ValV, u64, ValV),
    Access(Seq<char>, ValV, u64),
    Jump(Seq<char>),
    Jumpif(ValV, Seq<char>),
    JumpifNot(ValV, Seq<char>),
    Call(Option<(Seq<char>, Seq<char>)>, bool, Seq<char>, Seq<ValV>),
    Return(ValV, ValV),
}

/// The views of a list of values.
pub open spec fn vals_view(v: Seq<Val>) -> Seq<ValV> {
    v.map_values(|x: Val| x@)
}

impl View for Instruction {
    type V = InstV;

    open spec fn view(&self) -> InstV {
        match self {
            Instruction::Bin(d, op, a, b) => InstV::Bin(d@, *op, a@, b@),
            Instruction::Unary(d, op, a) => InstV::Unary(d@, *op, a@),
            Instruction::Mov(d, a) => InstV::Mov(d@, a@),
            Instruction::AssignArray(d, off, a) => InstV::AssignArray(d@, *off, a@),
            Instruction::Access(d, a, off) => InstV::Access(d@, a@, *off),
            Instruction::Jump(l) => InstV::Jump(l.name@),
            Instruction::Jumpif(a, l) => InstV::Jumpif(a@, l.name@),
            Instruction::JumpifNot(a, l) => InstV::JumpifNot(a@, l.name@),
            Instruction::Call(dest, native, name, args) => InstV::Call(
                match dest {
                    Some((d1, d2)) => Some((d1@, d2@)),
                    None => None,
                },
                *native,
                name@,
                vals_view(args@),
            ),
            Instruction::Return(u, v) => InstV::Return(u@, v@),
        }
    }
}

/// The mathematical value of a statement.
pub enum StmtV {
    Label(Seq<char>),
    Inst(InstV),
}

impl View for Statement {
    type V = StmtV;

    open spec fn view(&self) -> StmtV {
        match self {
            Statement::Label(l) => StmtV::Label(l.name@),
            Statement::Inst(i) => StmtV::Inst(i@),
        }
    }
}

/// The views of a list of statements.
pub open spec fn stmts_view(v: Seq<Statement>) -> Seq<StmtV> {
    v.map_values(|x: Statement| x@)
}

} // verus!
