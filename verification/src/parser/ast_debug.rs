use vstd::prelude::*;

use crate::automata::line_counter::Span;
use crate::ir::lir_to_asm::{debug_quote, debug_quoted};
use crate::parser::ast::{BinOp, Block, Else, ElseVal, Exp, ExpVal, LValue, LocatedIdent, Range, UnaryOp};
use crate::parser::typing::fill::{debug_scope, debug_type, debug_type_text, scope_debug_text};
use crate::text::{append_decimal, append_decimal64, append_item, cat3, decimal, list_sep, owned};

verus! {

// How the syntax tree is written by Rust's derived `Debug` formatting
// (`{:?}`): a struct as `Name { field: value, .. }`, a variant as
// `Name(a, b)`, a list as `[a, b]`, a string quoted and escaped.

/// A triple of numbers.
pub open spec fn triple_dbg(t: (usize, usize, usize)) -> Seq<char> {
    "("@ + decimal(t.0 as nat) + ", "@ + decimal(t.1 as nat) + ", "@ + decimal(t.2 as nat) + ")"@
}

/// A span.
pub open spec fn span_dbg(sp: Span) -> Seq<char> {
    "Span { file: "@ + debug_quoted(sp.file@) + ", start: "@ + triple_dbg(sp.start) + ", end: "@ + triple_dbg(sp.end)
        + " }"@
}

/// A signed number.
pub open spec fn int_dbg(i: i64) -> Seq<char> {
    if i < 0 {
        "-"@ + decimal((-i) as nat)
    } else {
        decimal(i as nat)
    }
}

/// A boolean.
pub open spec fn bool_dbg(b: bool) -> Seq<char> {
    if b {
        "true"@
    } else {
        "false"@
    }
}

/// A binary operator.
pub open spec fn bin_op_dbg(op: BinOp) -> Seq<char> {
    match op {
        BinOp::Or => "Or"@,
        BinOp::And => "And"@,
        BinOp::Equ => "Equ"@,
        BinOp::Neq => "Neq"@,
        BinOp::Lt => "Lt"@,
        BinOp::Leq => "Leq"@,
        BinOp::Gt => "Gt"@,
        BinOp::Geq => "Geq"@,
        BinOp::Plus => "Plus"@,
        BinOp::Minus => "Minus"@,
        BinOp::Times => "Times"@,
        BinOp::Mod => "Mod"@,
        BinOp::Pow => "Pow"@,
    }
}

/// A unary operator.
pub open spec fn un_op_dbg(op: UnaryOp) -> Seq<char> {
    match op {
        UnaryOp::Neg => "Neg"@,
        UnaryOp::Not => "Not"@,
    }
}

/// A located name.
pub open spec fn ident_dbg(i: LocatedIdent) -> Seq<char> {
    "LocatedIdent { span: "@ + span_dbg(i.span) + ", name: "@ + debug_quoted(i.name@) + " }"@
}

/// An expression.
pub open spec fn exp_dbg(e: Exp) -> Seq<char>
    decreases e, 0int,
{
    proof {
        assert(decreases_to!(e => e.val));
    }
    "Exp { span: "@ + span_dbg(e.span) + ", val: "@ + exp_val_dbg(*e.val) + ", static_ty: "@ + debug_type_text(
        e.static_ty@,
    ) + " }"@
}

/// The first `k` expressions of a list, separated by ", ".
pub open spec fn exps_dbg(s: Seq<Exp>, k: int) -> Seq<char>
    decreases s, k,
{
    if k <= 0 || k > s.len() {
        seq![]
    } else {
        exps_dbg(s, k - 1) + list_sep(k - 1) + exp_dbg(s[k - 1])
    }
}

/// What an expression is.
pub open spec fn exp_val_dbg(v: ExpVal) -> Seq<char>
    decreases v, 0int,
{
    match v {
        ExpVal::Return(None) => "Return(None)"@,
        ExpVal::Return(Some(x)) => "Return(Some("@ + exp_dbg(x) + "))"@,
        ExpVal::Assign(lv, x) => "Assign("@ + lvalue_dbg(lv) + ", "@ + exp_dbg(x) + ")"@,
        ExpVal::BinOp(op, a, b) => "BinOp("@ + bin_op_dbg(op) + ", "@ + exp_dbg(a) + ", "@ + exp_dbg(b) + ")"@,
        ExpVal::UnaryOp(op, x) => "UnaryOp("@ + un_op_dbg(op) + ", "@ + exp_dbg(x) + ")"@,
        ExpVal::Call(f, args) => {
            proof {
                assert(decreases_to!(args => args@));
            }
            "Call("@ + debug_quoted(f@) + ", ["@ + exps_dbg(args@, args@.len() as int) + "])"@
        },
        ExpVal::Int(i) => "Int("@ + int_dbg(i) + ")"@,
        ExpVal::Str(s) => "Str("@ + debug_quoted(s@) + ")"@,
        ExpVal::Bool(b) => "Bool("@ + bool_dbg(b) + ")"@,
        ExpVal::LValue(lv) => "LValue("@ + lvalue_dbg(lv) + ")"@,
        ExpVal::Block(b) => "Block("@ + block_dbg(b) + ")"@,
        ExpVal::Mul(i, s) => "Mul("@ + int_dbg(i) + ", "@ + debug_quoted(s@) + ")"@,
        ExpVal::LMul(i, b) => "LMul("@ + int_dbg(i) + ", "@ + block_dbg(b) + ")"@,
        ExpVal::RMul(x, s) => "RMul("@ + exp_dbg(x) + ", "@ + debug_quoted(s@) + ")"@,
        ExpVal::If(x, b, el) => "If("@ + exp_dbg(x) + ", "@ + block_dbg(b) + ", "@ + else_dbg(el) + ")"@,
        ExpVal::For(i, r, b) => "For("@ + ident_dbg(i) + ", "@ + range_dbg(r) + ", "@ + block_dbg(b) + ")"@,
        ExpVal::While(x, b) => "While("@ + exp_dbg(x) + ", "@ + block_dbg(b) + ")"@,
    }
}

/// A place.
pub open spec fn lvalue_dbg(lv: LValue) -> Seq<char>
    decreases lv, 0int,
{
    let inner = match lv.in_exp {
        None => "None"@,
        Some(x) => "Some("@ + exp_dbg(x) + ")"@,
    };
    "LValue { span: "@ + span_dbg(lv.span) + ", scope: "@ + scope_debug_text(lv.scope) + ", in_exp: "@ + inner
        + ", name: "@ + debug_quoted(lv.name@) + " }"@
}

/// A block.
pub open spec fn block_dbg(b: Block) -> Seq<char>
    decreases b, 0int,
{
    proof {
        assert(decreases_to!(b => b.val));
        assert(decreases_to!(b.val => b.val@));
    }
    "Block { span: "@ + span_dbg(b.span) + ", val: ["@ + exps_dbg(b.val@, b.val@.len() as int) + "], trailing_semicolon: "@
        + bool_dbg(b.trailing_semicolon) + ", static_ty: "@ + debug_type_text(b.static_ty@) + " }"@
}

/// An else branch.
pub open spec fn else_dbg(el: Else) -> Seq<char>
    decreases el, 0int,
{
    proof {
        assert(decreases_to!(el => el.val));
    }
    "Else { span: "@ + span_dbg(el.span) + ", val: "@ + else_val_dbg(*el.val) + " }"@
}

/// What an else branch is.
pub open spec fn else_val_dbg(v: ElseVal) -> Seq<char>
    decreases v, 0int,
{
    match v {
        ElseVal::End => "End"@,
        ElseVal::Else(b) => "Else("@ + block_dbg(b) + ")"@,
        ElseVal::ElseIf(x, b, el) => "ElseIf("@ + exp_dbg(x) + ", "@ + block_dbg(b) + ", "@ + else_dbg(el) + ")"@,
    }
}

/// A range.
pub open spec fn range_dbg(r: Range) -> Seq<char>
    decreases r, 0int,
{
    "Range { span: "@ + span_dbg(r.span) + ", start: "@ + exp_dbg(r.start) + ", end: "@ + exp_dbg(r.end) + " }"@
}

fn triple_text(t: (usize, usize, usize)) -> (r: String)
    ensures
        r@ == triple_dbg(t),
{
    proof {
        reveal_strlit("(");
        reveal_strlit(", ");
        reveal_strlit(")");
    }
    let mut r = owned("(");
    append_decimal(&mut r, t.0);
    r.append(", ");
    append_decimal(&mut r, t.1);
    r.append(", ");
    append_decimal(&mut r, t.2);
    r.append(")");
    r
}

fn span_text(sp: &Span) -> (r: String)
    ensures
        r@ == span_dbg(*sp),
{
    proof {
        reveal_strlit("Span { file: ");
        reveal_strlit(", start: ");
        reveal_strlit(", end: ");
        reveal_strlit(" }");
    }
    let q = debug_quote(sp.file);
    let a = triple_text(sp.start);
    let b = triple_text(sp.end);
    let mut r = cat3("Span { file: ", q.as_str(), ", start: ");
    r.append(a.as_str());
    r.append(", end: ");
    r.append(b.as_str());
    r.append(" }");
    r
}

fn int_text(i: i64) -> (r: String)
    ensures
        r@ == int_dbg(i),
{
    if i < 0 {
        proof {
            reveal_strlit("-");
        }
        let a: u64 = if i == i64::MIN {
            9223372036854775808u64
        } else {
            (-i) as u64
        };
        let mut r = owned("-");
        append_decimal64(&mut r, a);
        r
    } else {
        let mut r = String::new();
        append_decimal64(&mut r, i as u64);
        assert(r@ =~= decimal(i as nat));
        r
    }
}

fn bool_text(b: bool) -> (r: String)
    ensures
        r@ == bool_dbg(b),
{
    proof {
        reveal_strlit("true");
        reveal_strlit("false");
    }
    if b {
        owned("true")
    } else {
        owned("false")
    }
}

fn bin_op_text(op: BinOp) -> (r: String)
    ensures
        r@ == bin_op_dbg(op),
{
    proof {
        reveal_strlit("Or");
        reveal_strlit("And");
        reveal_strlit("Equ");
        reveal_strlit("Neq");
        reveal_strlit("Lt");
        reveal_strlit("Leq");
        reveal_strlit("Gt");
        reveal_strlit("Geq");
        reveal_strlit("Plus");
        reveal_strlit("Minus");
        reveal_strlit("Times");
        reveal_strlit("Mod");
        reveal_strlit("Pow");
    }
    match op {
        BinOp::Or => owned("Or"),
        BinOp::And => owned("And"),
        BinOp::Equ => owned("Equ"),
        BinOp::Neq => owned("Neq"),
        BinOp::Lt => owned("Lt"),
        BinOp::Leq => owned("Leq"),
        BinOp::Gt => owned("Gt"),
        BinOp::Geq => owned("Geq"),
        BinOp::Plus => owned("Plus"),
        BinOp::Minus => owned("Minus"),
        BinOp::Times => owned("Times"),
        BinOp::Mod => owned("Mod"),
        BinOp::Pow => owned("Pow"),
    }
}

fn un_op_text(op: UnaryOp) -> (r: String)
    ensures
        r@ == un_op_dbg(op),
{
    proof {
        reveal_strlit("Neg");
        reveal_strlit("Not");
    }
    match op {
        UnaryOp::Neg => owned("Neg"),
        UnaryOp::Not => owned("Not"),
    }
}

fn ident_text(i: &LocatedIdent) -> (r: String)
    ensures
        r@ == ident_dbg(*i),
{
    proof {
        reveal_strlit("LocatedIdent { span: ");
        reveal_strlit(", name: ");
        reveal_strlit(" }");
    }
    let sp = span_text(&i.span);
    let q = debug_quote(i.name.as_str());
    let mut r = cat3("LocatedIdent { span: ", sp.as_str(), ", name: ");
    r.append(q.as_str());
    r.append(" }");
    r
}

/// An expression, as Rust's `Debug` formatting writes it.
pub fn exp_text(e: &Exp) -> (r: String)
    ensures
        r@ == exp_dbg(*e),
    decreases *e, 0int,
{
    proof {
        reveal_strlit("Exp { span: ");
        reveal_strlit(", val: ");
        reveal_strlit(", static_ty: ");
        reveal_strlit(" }");
        assert(decreases_to!(*e => e.val));
    }
    let sp = span_text(&e.span);
    let v = exp_val_text(&*e.val);
    let t = debug_type(&e.static_ty);
    let mut r = cat3("Exp { span: ", sp.as_str(), ", val: ");
    r.append(v.as_str());
    r.append(", static_ty: ");
    r.append(t.as_str());
    r.append(" }");
    r
}

fn exps_text(s: &Vec<Exp>) -> (r: String)
    ensures
        r@ == exps_dbg(s@, s@.len() as int),
    decreases *s, 1int,
{
    let mut r = String::new();
    let mut i: usize = 0;
    while i < s.len()
        invariant
            i <= s@.len(),
            r@ == exps_dbg(s@, i as int),
        decreases s.len() - i,
    {
        proof {
            assert(decreases_to!(*s => s@));
            assert(decreases_to!(s@ => s@[i as int]));
        }
        let t = exp_text(&s[i]);
        append_item(&mut r, i, t.as_str());
        i = i + 1;
    }
    r
}

fn exp_val_text(v: &ExpVal) -> (r: String)
    ensures
        r@ == exp_val_dbg(*v),
    decreases *v, 0int,
{
    proof {
        reveal_strlit("Return(None)");
        reveal_strlit("Return(Some(");
        reveal_strlit("))");
        reveal_strlit("Assign(");
        reveal_strlit(", ");
        reveal_strlit(")");
        reveal_strlit("BinOp(");
        reveal_strlit("UnaryOp(");
        reveal_strlit("Call(");
        reveal_strlit(", [");
        reveal_strlit("])");
        reveal_strlit("Int(");
        reveal_strlit("Str(");
        reveal_strlit("Bool(");
        reveal_strlit("LValue(");
        reveal_strlit("Block(");
        reveal_strlit("Mul(");
        reveal_strlit("LMul(");
        reveal_strlit("RMul(");
        reveal_strlit("If(");
        reveal_strlit("For(");
        reveal_strlit("While(");
    }
    match v {
        ExpVal::Return(None) => owned("Return(None)"),
        ExpVal::Return(Some(x)) => {
            let a = exp_text(x);
            cat3("Return(Some(", a.as_str(), "))")
        },
        ExpVal::Assign(lv, x) => {
            let a = lvalue_text(lv);
            let b = exp_text(x);
            let mut r = cat3("Assign(", a.as_str(), ", ");
            r.append(b.as_str());
            r.append(")");
            r
        },
        ExpVal::BinOp(op, a, b) => {
            let o = bin_op_text(*op);
            let ta = exp_text(a);
            let tb = exp_text(b);
            let mut r = cat3("BinOp(", o.as_str(), ", ");
            r.append(ta.as_str());
            r.append(", ");
            r.append(tb.as_str());
            r.append(")");
            r
        },
        ExpVal::UnaryOp(op, x) => {
            let o = un_op_text(*op);
            let a = exp_text(x);
            let mut r = cat3("UnaryOp(", o.as_str(), ", ");
            r.append(a.as_str());
            r.append(")");
            r
        },
        ExpVal::Call(f, args) => {
            let q = debug_quote(f.as_str());
            let a = exps_text(args);
            let mut r = cat3("Call(", q.as_str(), ", [");
            r.append(a.as_str());
            r.append("])");
            r
        },
        ExpVal::Int(i) => {
            let a = int_text(*i);
            cat3("Int(", a.as_str(), ")")
        },
        ExpVal::Str(s) => {
            let q = debug_quote(s.as_str());
            cat3("Str(", q.as_str(), ")")
        },
        ExpVal::Bool(b) => {
            let a = bool_text(*b);
            cat3("Bool(", a.as_str(), ")")
        },
        ExpVal::LValue(lv) => {
            let a = lvalue_text(lv);
            cat3("LValue(", a.as_str(), ")")
        },
        ExpVal::Block(b) => {
            let a = block_text(b);
            cat3("Block(", a.as_str(), ")")
        },
        ExpVal::Mul(i, s) => {
            let a = int_text(*i);
            let q = debug_quote(s.as_str());
            let mut r = cat3("Mul(", a.as_str(), ", ");
            r.append(q.as_str());
            r.append(")");
            r
        },
        ExpVal::LMul(i, b) => {
            let a = int_text(*i);
            let tb = block_text(b);
            let mut r = cat3("LMul(", a.as_str(), ", ");
            r.append(tb.as_str());
            r.append(")");
            r
        },
        ExpVal::RMul(x, s) => {
            let a = exp_text(x);
            let q = debug_quote(s.as_str());
            let mut r = cat3("RMul(", a.as_str(), ", ");
            r.append(q.as_str());
            r.append(")");
            r
        },
        ExpVal::If(x, b, el) => {
            let a = exp_text(x);
            let tb = block_text(b);
            let te = else_text(el);
            let mut r = cat3("If(", a.as_str(), ", ");
            r.append(tb.as_str());
            r.append(", ");
            r.append(te.as_str());
            r.append(")");
            r
        },
        ExpVal::For(i, rg, b) => {
            let a = ident_text(i);
            let tr = range_text(rg);
            let tb = block_text(b);
            let mut r = cat3("For(", a.as_str(), ", ");
            r.append(tr.as_str());
            r.append(", ");
            r.append(tb.as_str());
            r.append(")");
            r
        },
        ExpVal::While(x, b) => {
            let a = exp_text(x);
            let tb = block_text(b);
            let mut r = cat3("While(", a.as_str(), ", ");
            r.append(tb.as_str());
            r.append(")");
            r
        },
    }
}

fn lvalue_text(lv: &LValue) -> (r: String)
    ensures
        r@ == lvalue_dbg(*lv),
    decreases *lv, 0int,
{
    proof {
        reveal_strlit("LValue { span: ");
        reveal_strlit(", scope: ");
        reveal_strlit(", in_exp: ");
        reveal_strlit("None");
        reveal_strlit("Some(");
        reveal_strlit(")");
        reveal_strlit(", name: ");
        reveal_strlit(" }");
    }
    let sp = span_text(&lv.span);
    let sc = debug_scope(&lv.scope);
    let inner = match &lv.in_exp {
        None => owned("None"),
        Some(x) => {
            let a = exp_text(x);
            cat3("Some(", a.as_str(), ")")
        },
    };
    let q = debug_quote(lv.name.as_str());
    let mut r = cat3("LValue { span: ", sp.as_str(), ", scope: ");
    r.append(sc.as_str());
    r.append(", in_exp: ");
    r.append(inner.as_str());
    r.append(", name: ");
    r.append(q.as_str());
    r.append(" }");
    r
}

fn block_text(b: &Block) -> (r: String)
    ensures
        r@ == block_dbg(*b),
    decreases *b, 0int,
{
    proof {
        reveal_strlit("Block { span: ");
        reveal_strlit(", val: [");
        reveal_strlit("], trailing_semicolon: ");
        reveal_strlit(", static_ty: ");
        reveal_strlit(" }");
        assert(decreases_to!(*b => b.val));
    }
    let sp = span_text(&b.span);
    let v = exps_text(&b.val);
    let t = bool_text(b.trailing_semicolon);
    let ty = debug_type(&b.static_ty);
    let mut r = cat3("Block { span: ", sp.as_str(), ", val: [");
    r.append(v.as_str());
    r.append("], trailing_semicolon: ");
    r.append(t.as_str());
    r.append(", static_ty: ");
    r.append(ty.as_str());
    r.append(" }");
    r
}

fn else_text(el: &Else) -> (r: String)
    ensures
        r@ == else_dbg(*el),
    decreases *el, 0int,
{
    proof {
        reveal_strlit("Else { span: ");
        reveal_strlit(", val: ");
        reveal_strlit(" }");
        assert(decreases_to!(*el => el.val));
    }
    let sp = span_text(&el.span);
    let v = else_val_text(&*el.val);
    let mut r = cat3("Else { span: ", sp.as_str(), ", val: ");
    r.append(v.as_str());
    r.append(" }");
    r
}

fn else_val_text(v: &ElseVal) -> (r: String)
    ensures
        r@ == else_val_dbg(*v),
    decreases *v, 0int,
{
    proof {
        reveal_strlit("End");
        reveal_strlit("Else(");
        reveal_strlit(")");
        reveal_strlit("ElseIf(");
        reveal_strlit(", ");
    }
    match v {
        ElseVal::End => owned("End"),
        ElseVal::Else(b) => {
            let a = block_text(b);
            cat3("Else(", a.as_str(), ")")
        },
        ElseVal::ElseIf(x, b, el) => {
            let a = exp_text(x);
            let tb = block_text(b);
            let te = else_text(el);
            let mut r = cat3("ElseIf(", a.as_str(), ", ");
            r.append(tb.as_str());
            r.append(", ");
            r.append(te.as_str());
            r.append(")");
            r
        },
    }
}

fn range_text(rg: &Range) -> (r: String)
    ensures
        r@ == range_dbg(*rg),
    decreases *rg, 0int,
{
    proof {
        reveal_strlit("Range { span: ");
        reveal_strlit(", start: ");
        reveal_strlit(", end: ");
        reveal_strlit(" }");
    }
    let sp = span_text(&rg.span);
    let a = exp_text(&rg.start);
    let b = exp_text(&rg.end);
    let mut r = cat3("Range { span: ", sp.as_str(), ", start: ");
    r.append(a.as_str());
    r.append(", end: ");
    r.append(b.as_str());
    r.append(" }");
    r
}

} // verus!
