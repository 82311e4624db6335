use vstd::prelude::*;

use crate::automata::line_counter::Span;
use crate::text::str_eq;

verus! {

/// An identifier with the region where it was written.
#[derive(Debug)]
pub struct LocatedIdent<'a> {
    pub span: Span<'a>,
    pub name: String,
}

impl<'a> LocatedIdent<'a> {
    pub fn new(span: Span<'a>, name: String) -> (r: Self)
        ensures
            r.span == span,
            r.name == name,
    {
        LocatedIdent { span, name }
    }
}

/// A parameter of a function or a field of a structure.
#[derive(Debug)]
pub struct Param<'a> {
    pub span: Span<'a>,
    pub name: LocatedIdent<'a>,
    pub ty: StaticType,
}

impl<'a> Param<'a> {
    /// A parameter; without a type, its type is `Any`.
    pub fn new(span: Span<'a>, name: LocatedIdent<'a>, ty: Option<LocatedIdent<'a>>) -> (r: Self)
        ensures
            r.span == span,
            r.name == name,
            r.ty@ == match ty {
                None => StaticTypeV::Any,
                Some(l) => type_named(l.name@),
            },
    {
        let t = match ty {
            None => StaticType::Any,
            Some(l) => static_type_from_str(l.name.as_str()),
        };
        Param { span, name, ty: t }
    }
}

#[derive(Debug, Clone, Copy, PartialEq, Eq, Structural)]
pub enum Scope {
    Global,
    Local,
}

/// A place that can be assigned: a variable, or a field of a value.
#[derive(Debug)]
pub struct LValue<'a> {
    pub span: Span<'a>,
    pub scope: Scope,
    pub in_exp: Option<Exp<'a>>,
    pub name: String,
}

impl<'a> LValue<'a> {
    /// A place, global until typing says otherwise.
    pub fn new(span: Span<'a>, in_exp: Option<Exp<'a>>, name: String) -> (r: Self)
        ensures
            r.span == span,
            r.in_exp == in_exp,
            r.name == name,
            r.scope == Scope::Global,
    {
        LValue { span, in_exp, name, scope: Scope::Global }
    }
}

#[derive(Debug, Clone, Copy)]
pub enum BinOp {
    Or,
    And,
    Equ,
    Neq,
    Lt,
    Leq,
    Gt,
    Geq,
    Plus,
    Minus,
    Times,
    Mod,
    Pow,
}

#[derive(Debug, Clone, Copy)]
pub enum UnaryOp {
    Neg,
    Not,
}

/// `start:end`.
#[derive(Debug)]
pub struct Range<'a> {
    pub span: Span<'a>,
    pub start: Exp<'a>,
    pub end: Exp<'a>,
}

impl<'a> Range<'a> {
    pub fn new(span: Span<'a>, start: Exp<'a>, end: Exp<'a>) -> (r: Self)
        ensures
            r.span == span,
            r.start == start,
            r.end == end,
    {
        Range { span, start, end }
    }
}

#[derive(Debug)]
pub enum ElseVal<'a> {
    End,
    Else(Block<'a>),
    ElseIf(Exp<'a>, Block<'a>, Else<'a>),
}

#[derive(Debug)]
pub struct Else<'a> {
    pub span: Span<'a>,
    pub val: Box<ElseVal<'a>>,
}

impl<'a> Else<'a> {
    pub fn new(span: Span<'a>, val: ElseVal<'a>) -> (r: Self)
        ensures
            r.span == span,
            *r.val == val,
    {
        Else { span, val: Box::new(val) }
    }
}

#[derive(Debug)]
pub enum ExpVal<'a> {
    Return(Option<Exp<'a>>),
    Assign(LValue<'a>, Exp<'a>),
    BinOp(BinOp, Exp<'a>, Exp<'a>),
    UnaryOp(UnaryOp, Exp<'a>),
    Call(String, Vec<Exp<'a>>),
    Int(i64),
    Str(String),
    Bool(bool),
    LValue(LValue<'a>),
    Block(Block<'a>),
    Mul(i64, String),
    LMul(i64, Block<'a>),
    RMul(Exp<'a>, String),
    If(Exp<'a>, Block<'a>, Else<'a>),
    For(LocatedIdent<'a>, Range<'a>, Block<'a>),
    While(Exp<'a>, Block<'a>),
}

/// A type of the language.
#[derive(Debug, Clone)]
pub enum StaticType {
    Any,
    Nothing,
    Int64,
    Bool,
    Str,
    Struct(String),
}

/// The mathematical value of a type.
pub enum StaticTypeV {
    Any,
    Nothing,
    Int64,
    Bool,
    Str,
    Struct(Seq<char>),
}

impl View for StaticType {
    type V = StaticTypeV;

    open spec fn view(&self) -> StaticTypeV {
        match self {
            StaticType::Any => StaticTypeV::Any,
            StaticType::Nothing => StaticTypeV::Nothing,
            StaticType::Int64 => StaticTypeV::Int64,
            StaticType::Bool => StaticTypeV::Bool,
            StaticType::Str => StaticTypeV::Str,
            StaticType::Struct(s) => StaticTypeV::Struct(s@),
        }
    }
}

impl StaticType {
    /// A copy of the type.
    pub fn duplicate(&self) -> (r: StaticType)
        ensures
            r@ == self@,
    {
        match self {
            StaticType::Any => StaticType::Any,
            StaticType::Nothing => StaticType::Nothing,
            StaticType::Int64 => StaticType::Int64,
            StaticType::Bool => StaticType::Bool,
            StaticType::Str => StaticType::Str,
            StaticType::Struct(s) => StaticType::Struct(s.clone()),
        }
    }

    /// Whether two types are the same.
    pub fn same(&self, other: &StaticType) -> (r: bool)
        ensures
            r == (self@ == other@),
    {
        match (self, other) {
            (StaticType::Any, StaticType::Any) => true,
            (StaticType::Nothing, StaticType::Nothing) => true,
            (StaticType::Int64, StaticType::Int64) => true,
            (StaticType::Bool, StaticType::Bool) => true,
            (StaticType::Str, StaticType::Str) => true,
            (StaticType::Struct(a), StaticType::Struct(b)) => str_eq(a.as_str(), b.as_str()),
            _ => false,
        }
    }

    /// The type as it is shown in messages.
    pub fn to_string(&self) -> (r: String)
        ensures
            r@ == type_text(self@),
    {
        proof {
            reveal_strlit("Any");
            reveal_strlit("Nothing");
            reveal_strlit("Int64");
            reveal_strlit("Bool");
            reveal_strlit("String");
            reveal_strlit("Structure '");
            reveal_strlit("'");
        }
        match self {
            StaticType::Any => String::from_str("Any"),
            StaticType::Nothing => String::from_str("Nothing"),
            StaticType::Int64 => String::from_str("Int64"),
            StaticType::Bool => String::from_str("Bool"),
            StaticType::Str => String::from_str("String"),
            StaticType::Struct(s) => {
                let mut r = String::from_str("Structure '");
                r.append(s.as_str());
                r.append("'");
                r
            },
        }
    }
}

/// How a type is shown in messages.
pub open spec fn type_text(t: StaticTypeV) -> Seq<char> {
    match t {
        StaticTypeV::Any => "Any"@,
        StaticTypeV::Nothing => "Nothing"@,
        StaticTypeV::Int64 => "Int64"@,
        StaticTypeV::Bool => "Bool"@,
        StaticTypeV::Str => "String"@,
        StaticTypeV::Struct(s) => "Structure '"@ + s + "'"@,
    }
}

/// The type a name stands for: a built-in type, or else a structure.
pub open spec fn type_named(s: Seq<char>) -> StaticTypeV {
    if s == "Any"@ {
        StaticTypeV::Any
    } else if s == "Nothing"@ {
        StaticTypeV::Nothing
    } else if s == "Int64"@ {
        StaticTypeV::Int64
    } else if s == "Bool"@ {
        StaticTypeV::Bool
    } else if s == "String"@ {
        StaticTypeV::Str
    } else {
        StaticTypeV::Struct(s)
    }
}

/// The type a name stands for.
pub fn static_type_from_str(s: &str) -> (r: StaticType)
    ensures
        r@ == type_named(s@),
{
    if str_eq(s, "Any") {
        StaticType::Any
    } else if str_eq(s, "Nothing") {
        StaticType::Nothing
    } else if str_eq(s, "Int64") {
        StaticType::Int64
    } else if str_eq(s, "Bool") {
        StaticType::Bool
    } else if str_eq(s, "String") {
        StaticType::Str
    } else {
        StaticType::Struct(String::from_str(s))
    }
}

/// An expression with its region and the type found for it.
#[derive(Debug)]
pub struct Exp<'a> {
    pub span: Span<'a>,
    pub val: Box<ExpVal<'a>>,
    pub static_ty: StaticType,
}

impl<'a> Exp<'a> {
    /// An expression, of type `Any` until typing says otherwise.
    pub fn new(span: Span<'a>, val: ExpVal<'a>) -> (r: Self)
        ensures
            r.span == span,
            *r.val == val,
            r.static_ty@ == StaticTypeV::Any,
    {
        Exp { span, val: Box::new(val), static_ty: StaticType::Any }
    }
}

#[derive(Debug)]
pub struct Block<'a> {
    pub span: Span<'a>,
    pub val: Vec<Exp<'a>>,
    pub trailing_semicolon: bool,
    pub static_ty: StaticType,
}

impl<'a> Block<'a> {
    pub fn new(span: Span<'a>, val: Vec<Exp<'a>>, trailing_semicolon: bool) -> (r: Self)
        ensures
            r.span == span,
            r.val == val,
            r.trailing_semicolon == trailing_semicolon,
            r.static_ty@ == StaticTypeV::Any,
    {
        Block { span, val, trailing_semicolon, static_ty: StaticType::Any }
    }
}

#[derive(Debug)]
pub struct Structure<'a> {
    pub span: Span<'a>,
    pub mutable: bool,
    pub name: LocatedIdent<'a>,
    pub fields: Vec<Param<'a>>,
}

impl<'a> Structure<'a> {
    pub fn new(span: Span<'a>, mutable: bool, name: LocatedIdent<'a>, fields: Vec<Param<'a>>) -> (r: Self)
        ensures
            r.span == span,
            r.mutable == mutable,
            r.name == name,
            r.fields == fields,
    {
        Structure { span, mutable, name, fields }
    }
}

#[derive(Debug)]
pub struct Function<'a> {
    pub span: Span<'a>,
    pub name: String,
    pub params: Vec<Param<'a>>,
    pub ret_ty: StaticType,
    pub body: Block<'a>,
}

impl<'a> Function<'a> {
    /// A function; without a return type, it returns `Any`.
    pub fn new(span: Span<'a>, name: String, params: Vec<Param<'a>>, ret_ty: Option<LocatedIdent<'a>>, body: Block<'a>) -> (r: Self)
        ensures
            r.span == span,
            r.name == name,
            r.params == params,
            r.ret_ty@ == match ret_ty {
                None => StaticTypeV::Any,
                Some(l) => type_named(l.name@),
            },
            r.body == body,
    {
        let t = match ret_ty {
            None => StaticType::Any,
            Some(l) => static_type_from_str(l.name.as_str()),
        };
        Function { span, name, params, ret_ty: t, body }
    }
}

#[derive(Debug)]
pub enum DeclVal<'a> {
    Structure(Structure<'a>),
    Function(Function<'a>),
    Exp(Exp<'a>),
}

#[derive(Debug)]
pub struct Decl<'a> {
    pub span: Span<'a>,
    pub val: DeclVal<'a>,
}

impl<'a> Decl<'a> {
    pub fn new(span: Span<'a>, val: DeclVal<'a>) -> (r: Self)
        ensures
            r.span == span,
            r.val == val,
    {
        Decl { span, val }
    }
}

} // verus!
