use vstd::prelude::*;

verus! {

/// The type tag of a value.
#[derive(Clone, Debug)]
pub enum Type {
    Nothing,
    Int64,
    Bool,
    Str,
    Struct(String),
}

/// A value: nothing, a variable, a constant with its type, or a string.
#[derive(Clone, Debug)]
pub enum Val {
    Nothing,
    Var(String),
    Const(Type, u64),
    Str(String),
}

#[derive(Clone, Copy, Debug)]
pub enum BinOp {
    And,
    Or,
    Equ,
    Neq,
    Lt,
    Leq,
    Gt,
    Geq,
    Add,
    Sub,
    Mul,
    Div,
}

#[derive(Clone, Copy, Debug)]
pub enum UnaryOp {
    Neg,
    Not,
}

/// What a statement computes.
#[derive(Clone, Debug)]
pub enum Callable {
    /// The called function, whether it is a native function, and the
    /// arguments.
    Call(String, bool, Vec<Val>),
    Bin(BinOp, Val, Val),
    Unary(UnaryOp, Val),
    Assign(Val),
    /// A new value of the named structure.
    Alloc(String),
    IsType(Val, Type),
    /// A field of a structure: the value, the structure and the field.
    Access(Val, String, String),
}

/// Where a statement stores its result.
#[derive(Clone, Debug)]
pub enum LValue {
    Var(String),
    /// A field of a structure: the value, the structure and the field.
    Access(Val, String, String),
}

#[derive(Debug)]
pub enum Statement {
    /// The destination and what is computed.
    Call(LValue, Callable),
    Return(Val),
    If(Val, Block, Block),
    While(Val, Block),
}

#[derive(Debug)]
pub struct Block {
    pub stmts: Vec<Statement>,
}

impl Block {
    pub fn new(stmts: Vec<Statement>) -> (r: Self)
        ensures
            r.stmts == stmts,
    {
        Block { stmts }
    }

    pub fn push(&mut self, stmt: Statement)
        ensures
            final(self).stmts@ == old(self).stmts@.push(stmt),
    {
        self.stmts.push(stmt);
    }

    pub fn extend(&mut self, stmts: Vec<Statement>)
        ensures
            final(self).stmts@ == old(self).stmts@ + stmts@,
    {
        let mut stmts = stmts;
        self.stmts.append(&mut stmts);
    }
}

pub struct Function {
    pub name: String,
    pub args: Vec<String>,
    pub vars: Vec<String>,
    pub body: Block,
}

impl Function {
    pub fn new(name: String, args: Vec<String>, vars: Vec<String>, body: Block) -> (r: Self)
        ensures
            r.name == name,
            r.args == args,
            r.vars == vars,
            r.body == body,
    {
        Function { name, args, vars, body }
    }
}

pub struct StructDecl {
    pub name: String,
    pub fields: Vec<String>,
}

impl StructDecl {
    pub fn new(name: String, fields: Vec<String>) -> (r: StructDecl)
        ensures
            r.name == name,
            r.fields == fields,
    {
        StructDecl { name, fields }
    }
}

pub enum Decl {
    Function(Function),
    Struct(StructDecl),
}

/// A program: its global variables, the function to start with, and its
/// declarations.
pub struct Source {
    pub globals: Vec<String>,
    pub entrypoint: String,
    pub decls: Vec<Decl>,
}

impl Source {
    pub fn new(globals: Vec<String>, entrypoint: String, decls: Vec<Decl>) -> (r: Self)
        ensures
            r.globals == globals,
            r.entrypoint == entrypoint,
            r.decls == decls,
    {
        Source { globals, entrypoint, decls }
    }
}

// ---------------------------------------------------------------------------
// The values of the high-level language, as values.

/// A type tag, as a value.
pub enum TypeV {
    Nothing,
    Int64,
    Bool,
    Str,
    Struct(Seq<char>),
}

/// A value, as a value.
pub enum ValV {
    Nothing,
    Var(Seq<char>),
    Const(TypeV, u64),
    Str(Seq<char>),
}

/// What a statement computes, as a value.
pub enum CallableV {
    Call(Seq<char>, bool, Seq<ValV>),
    Bin(BinOp, ValV, ValV),
    Unary(UnaryOp, ValV),
    Assign(ValV),
    Alloc(Seq<char>),
    IsType(ValV, TypeV),
    Access(ValV, Seq<char>, Seq<char>),
}

/// A destination, as a value.
pub enum LValueV {
    Var(Seq<char>),
    Access(ValV, Seq<char>, Seq<char>),
}

/// A statement, as a value.
pub enum StatementV {
    Call(LValueV, CallableV),
    Return(ValV),
    If(ValV, Seq<StatementV>, Seq<StatementV>),
    While(ValV, Seq<StatementV>),
}

pub open spec fn type_v(t: Type) -> TypeV {
    match t {
        Type::Nothing => TypeV::Nothing,
        Type::Int64 => TypeV::Int64,
        Type::Bool => TypeV::Bool,
        Type::Str => TypeV::Str,
        Type::Struct(s) => TypeV::Struct(s@),
    }
}

pub open spec fn val_v(v: Val) -> ValV {
    match v {
        Val::Nothing => ValV::Nothing,
        Val::Var(s) => ValV::Var(s@),
        Val::Const(t, c) => ValV::Const(type_v(t), c),
        Val::Str(s) => ValV::Str(s@),
    }
}

pub open spec fn vals_v(vs: Seq<Val>) -> Seq<ValV> {
    vs.map_values(|v: Val| val_v(v))
}

pub open spec fn callable_v(c: Callable) -> CallableV {
    match c {
        Callable::Call(f, n, args) => CallableV::Call(f@, n, vals_v(args@)),
        Callable::Bin(op, a, b) => CallableV::Bin(op, val_v(a), val_v(b)),
        Callable::Unary(op, a) => CallableV::Unary(op, val_v(a)),
        Callable::Assign(a) => CallableV::Assign(val_v(a)),
        Callable::Alloc(s) => CallableV::Alloc(s@),
        Callable::IsType(a, t) => CallableV::IsType(val_v(a), type_v(t)),
        Callable::Access(a, s, f) => CallableV::Access(val_v(a), s@, f@),
    }
}

pub open spec fn lvalue_v(l: LValue) -> LValueV {
    match l {
        LValue::Var(s) => LValueV::Var(s@),
        LValue::Access(a, s, f) => LValueV::Access(val_v(a), s@, f@),
    }
}

pub open spec fn stmt_v(s: Statement) -> StatementV
    decreases s, 1int,
{
    match s {
        Statement::Call(l, c) => StatementV::Call(lvalue_v(l), callable_v(c)),
        Statement::Return(v) => StatementV::Return(val_v(v)),
        Statement::If(v, b1, b2) => {
            proof {
                assert(decreases_to!(s => b1.stmts@));
                assert(decreases_to!(s => b2.stmts@));
            }
            StatementV::If(val_v(v), stmts_v(b1.stmts@, b1.stmts@.len() as int), stmts_v(b2.stmts@, b2.stmts@.len() as int))
        },
        Statement::While(v, b) => {
            proof {
                assert(decreases_to!(s => b.stmts@));
            }
            StatementV::While(val_v(v), stmts_v(b.stmts@, b.stmts@.len() as int))
        },
    }
}

/// The first `k` statements, as values.
pub open spec fn stmts_v(s: Seq<Statement>, k: int) -> Seq<StatementV>
    decreases s, k,
{
    if k <= 0 || k > s.len() {
        Seq::empty()
    } else {
        stmts_v(s, k - 1).push(stmt_v(s[k - 1]))
    }
}

/// The statements of a block, as values.
pub open spec fn block_v(b: Block) -> Seq<StatementV> {
    stmts_v(b.stmts@, b.stmts@.len() as int)
}

} // verus!
