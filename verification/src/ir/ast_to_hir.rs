use vstd::prelude::*;

use crate::parser::ast_debug::{exp_dbg, exp_text};
use crate::parser::ast::{type_text, BinOp, Block, Else, ElseVal, Exp, ExpVal, Function, Param, Scope, StaticType, StaticTypeV, Structure, UnaryOp};
use crate::parser::typing::assign::{assigns_list, collect_all_assign_in_array};
use crate::parser::typing::data::TypedDecls;
use crate::parser::typing::phase1::{add_name, add_name_v, names_v};
use crate::text::{
    append_item, cat2, cat3, comma_list, decimal, digit, lemma_comma_list_step, owned, str_eq, u64_to_decimal,
    usize_to_decimal,
};
use crate::ir::lir_to_asm::{debug_quote, debug_quoted, is_comparison, lir_arith, lir_comparison, wrap64};
use crate::ir::hir_to_lir::bin_parts;
use super::hir;
use super::hir::{stmt_v, stmts_v, val_v, vals_v, CallableV, LValueV, StatementV, TypeV, ValV};

verus! {

// ---------------------------------------------------------------------------
// What the translation of expressions produces.

/// The name of the intermediate variable of number `id`.
pub open spec fn inter_name(id: u64) -> Seq<char> {
    "__intermediate_internal"@ + decimal(id as nat)
}

/// The number after `id`, back to 0 after the largest.
pub open spec fn next_id(id: u64) -> u64 {
    if id == u64::MAX {
        0
    } else {
        (id + 1) as u64
    }
}

/// What the translation of a function body reads: the parameters, the
/// global variables with their new names, and the structures.
pub struct EmCtx {
    pub params: Seq<Seq<char>>,
    pub globals: Seq<Seq<char>>,
    pub olds: Seq<(Seq<char>, Seq<char>)>,
    pub structs: Seq<Seq<char>>,
}

/// The new name of a global variable, in a list of renamings.
pub open spec fn renamed(olds: Seq<(Seq<char>, Seq<char>)>, n: Seq<char>) -> Option<Seq<char>> {
    if exists|i: int| 0 <= i < olds.len() && #[trigger] olds[i].0 == n {
        Some(olds[choose|i: int| 0 <= i < olds.len() && #[trigger] olds[i].0 == n].1)
    } else {
        None
    }
}

/// The new name of a global variable.
pub open spec fn old_name(c: EmCtx, n: Seq<char>) -> Option<Seq<char>> {
    renamed(c.olds, n)
}

/// What translating gives: the next intermediate number, the local
/// variables, the statements and the value; or the message of an error.
pub enum EOut {
    Done(u64, Seq<Seq<char>>, Seq<StatementV>, ValV),
    Fail(Seq<char>),
}

/// The same for a list of values.
pub enum EVals {
    Done(u64, Seq<Seq<char>>, Seq<StatementV>, Seq<ValV>),
    Fail(Seq<char>),
}

/// Storing what is computed into a variable.
pub open spec fn set_to(out: Seq<char>, c: CallableV) -> StatementV {
    StatementV::Call(LValueV::Var(out), c)
}

/// The operator of the high-level language for an operator of the source.
pub open spec fn hbin(op: BinOp) -> hir::BinOp {
    match op {
        BinOp::Or => hir::BinOp::Or,
        BinOp::And => hir::BinOp::And,
        BinOp::Equ => hir::BinOp::Equ,
        BinOp::Neq => hir::BinOp::Neq,
        BinOp::Lt => hir::BinOp::Lt,
        BinOp::Leq => hir::BinOp::Leq,
        BinOp::Gt => hir::BinOp::Gt,
        BinOp::Geq => hir::BinOp::Geq,
        BinOp::Plus => hir::BinOp::Add,
        BinOp::Minus => hir::BinOp::Sub,
        BinOp::Times => hir::BinOp::Mul,
        BinOp::Mod => hir::BinOp::Div,
        BinOp::Pow => hir::BinOp::Mul,
    }
}

/// An operator applied: natively, or by the native function `pow`.
pub open spec fn bin_callable(op: BinOp, a: ValV, b: ValV) -> CallableV {
    match op {
        BinOp::Pow => CallableV::Call("pow"@, true, seq![a, b]),
        _ => CallableV::Bin(hbin(op), a, b),
    }
}

pub open spec fn hun(op: UnaryOp) -> hir::UnaryOp {
    match op {
        UnaryOp::Neg => hir::UnaryOp::Neg,
        UnaryOp::Not => hir::UnaryOp::Not,
    }
}

/// The message for a global variable that was not renamed.
pub open spec fn no_global_text(t: StaticTypeV, n: Seq<char>) -> Seq<char> {
    "[T-AST] Unexpected error, lvalue of type '"@ + type_text(t) + "' is scoped globally but no global variables of name '"@ + n
        + "' exist!"@
}

/// The message for a field of a value that is not a structure.
pub open spec fn no_field_text(t: StaticTypeV, n: Seq<char>) -> Seq<char> {
    "[T-AST] Unexpected error, lvalue of type '"@ + type_text(t) + "' has no field '"@ + n + "'!"@
}

/// The start of the message for a structure in an unbound variable.
pub open spec fn unbound_struct_text(n: Seq<char>) -> Seq<char> {
    "[T-AST] Unbound structure variable, '"@ + n + "' is not bound (params: "@
}

/// The start of the message for a field assigned in a value that is not a
/// variable.
pub open spec fn not_variable_text() -> Seq<char> {
    "[T-AST] Invalid assignment location, left hand is not a variable but a '"@
}

/// The name given to the value of an expression that is not translated
/// where a value is needed: the text of the expression.
pub open spec fn placeholder_name(e: Exp) -> Seq<char> {
    "I_AM_A_PLACEHOLDER_CHECK_ME_PLEASE: "@ + exp_dbg(e)
}

/// The message for a field assigned in a value that is not a structure.
pub open spec fn not_structure_text(t: StaticTypeV) -> Seq<char> {
    "[T-AST] Invalid assignment location, left hand is not a structure but a '"@ + type_text(t) + "'!"@
}

/// Translating an expression whose value is needed.
#[verifier::opaque]
pub open spec fn ev(c: EmCtx, id: u64, l: Seq<Seq<char>>, e: Exp) -> EOut
    decreases e, 1int,
{
    proof {
        assert(decreases_to!(e => e.val));
    }
    match *e.val {
        ExpVal::BinOp(op, a, b) => match ev(c, id, l, a) {
            EOut::Done(id1, l1, sa, va) => match ev(c, id1, l1, b) {
                EOut::Done(id2, l2, sb, vb) => {
                    let out = inter_name(id2);
                    EOut::Done(next_id(id2), add_name_v(l2, out), (sa + sb).push(set_to(out, bin_callable(op, va, vb))), ValV::Var(out))
                },
                o => o,
            },
            o => o,
        },
        ExpVal::Block(b) => eb_value(c, id, l, b),
        ExpVal::UnaryOp(op, x) => match ev(c, id, l, x) {
            EOut::Done(id1, l1, s, v) => {
                let out = inter_name(id1);
                EOut::Done(next_id(id1), add_name_v(l1, out), s.push(set_to(out, CallableV::Unary(hun(op), v))), ValV::Var(out))
            },
            o => o,
        },
        ExpVal::Int(k) => EOut::Done(id, l, Seq::empty(), ValV::Const(TypeV::Int64, k as u64)),
        ExpVal::Bool(b) => EOut::Done(id, l, Seq::empty(), ValV::Const(TypeV::Bool, if b { 1u64 } else { 0u64 })),
        ExpVal::Str(s) => EOut::Done(id, l, Seq::empty(), ValV::Str(s@)),
        ExpVal::LValue(lv) => match lv.in_exp {
            None => if lv.scope == Scope::Local {
                EOut::Done(id, l, Seq::empty(), ValV::Var(lv.name@))
            } else {
                match old_name(c, lv.name@) {
                    None => EOut::Fail(no_global_text(e.static_ty@, lv.name@)),
                    Some(r) => EOut::Done(id, l, Seq::empty(), ValV::Var(r)),
                }
            },
            Some(p) => match p.static_ty@ {
                StaticTypeV::Struct(sn) => match ev(c, id, l, p) {
                    EOut::Done(id1, l1, s, v) => {
                        let out = inter_name(id1);
                        EOut::Done(next_id(id1), add_name_v(l1, out), s.push(set_to(out, CallableV::Access(v, sn, lv.name@))), ValV::Var(out))
                    },
                    o => o,
                },
                _ => EOut::Fail(no_field_text(p.static_ty@, lv.name@)),
            },
        },
        ExpVal::Mul(k, v) => {
            let out = inter_name(id);
            EOut::Done(
                next_id(id),
                add_name_v(l, out),
                seq![set_to(out, CallableV::Bin(hir::BinOp::Mul, ValV::Const(TypeV::Int64, k as u64), ValV::Var(v@)))],
                ValV::Var(out),
            )
        },
        ExpVal::LMul(k, b) => match eb_value(c, id, l, b) {
            EOut::Done(id1, l1, s, bv) => {
                let out = inter_name(id1);
                EOut::Done(
                    next_id(id1),
                    add_name_v(l1, out),
                    s.push(set_to(out, CallableV::Bin(hir::BinOp::Mul, ValV::Const(TypeV::Int64, k as u64), bv))),
                    ValV::Var(out),
                )
            },
            o => o,
        },
        ExpVal::RMul(x, v) => {
            let out = inter_name(id);
            match ev(c, next_id(id), add_name_v(l, out), x) {
                EOut::Done(id2, l2, s, xv) => EOut::Done(id2, l2, s.push(set_to(out, CallableV::Bin(hir::BinOp::Mul, xv, ValV::Var(v@)))), ValV::Var(out)),
                o => o,
            }
        },
        ExpVal::Return(m) => match m {
            None => EOut::Done(id, l, Seq::empty(), ValV::Nothing),
            Some(x) => ev(c, id, l, x),
        },
        ExpVal::Call(name, args) => {
            proof {
                assert(decreases_to!(args => args@));
            }
            let out = inter_name(id);
            match evs(c, next_id(id), add_name_v(l, out), args@, args@.len() as int) {
                EVals::Done(id2, l2, s, vals) => EOut::Done(
                    id2,
                    l2,
                    s.push(set_to(out, if c.structs.contains(name@) { CallableV::Alloc(name@) } else { CallableV::Call(name@, false, vals) })),
                    ValV::Var(out),
                ),
                EVals::Fail(m) => EOut::Fail(m),
            }
        },
        ExpVal::If(cond, then, u) => {
            let out = inter_name(id);
            match ev(c, next_id(id), add_name_v(l, out), cond) {
                EOut::Done(id2, l2, s, cv) => match eb_value(c, id2, l2, then) {
                    EOut::Done(id3, l3, ts, tv) => match eelse_value(c, id3, l3, u) {
                        EOut::Done(id4, l4, us, uv) => EOut::Done(
                            id4,
                            l4,
                            s.push(StatementV::If(cv, ts.push(set_to(out, CallableV::Assign(tv))), us.push(set_to(out, CallableV::Assign(uv))))),
                            ValV::Var(out),
                        ),
                        o => o,
                    },
                    o => o,
                },
                o => o,
            }
        },
        _ => EOut::Done(id, l, Seq::empty(), ValV::Var(placeholder_name(e))),
    }
}

/// Translating the first `k` expressions of a list, whose values are needed.
#[verifier::opaque]
pub open spec fn evs(c: EmCtx, id: u64, l: Seq<Seq<char>>, s: Seq<Exp>, k: int) -> EVals
    decreases s, k,
{
    if k <= 0 || k > s.len() {
        EVals::Done(id, l, Seq::empty(), Seq::empty())
    } else {
        match evs(c, id, l, s, k - 1) {
            EVals::Done(id1, l1, ss, vs) => match ev(c, id1, l1, s[k - 1]) {
                EOut::Done(id2, l2, s2, v) => EVals::Done(id2, l2, ss + s2, vs.push(v)),
                EOut::Fail(m) => EVals::Fail(m),
            },
            o => o,
        }
    }
}

/// Translating a block whose value is needed: the value of its last
/// expression, or nothing.
#[verifier::opaque]
pub open spec fn eb_value(c: EmCtx, id: u64, l: Seq<Seq<char>>, b: Block) -> EOut
    decreases b, 1int,
{
    proof {
        assert(decreases_to!(b => b.val));
        assert(decreases_to!(b.val => b.val@));
    }
    let n = b.val@.len();
    if n == 0 {
        EOut::Done(id, l, Seq::empty(), ValV::Nothing)
    } else {
        match eflat(c, id, l, b.val@, n - 1) {
            EOut::Done(id1, l1, s, _) => match ev(c, id1, l1, b.val@[n - 1]) {
                EOut::Done(id2, l2, s2, v) => EOut::Done(id2, l2, s + s2, v),
                o => o,
            },
            o => o,
        }
    }
}

/// Translating the first `k` expressions of a list as statements.
#[verifier::opaque]
pub open spec fn eflat(c: EmCtx, id: u64, l: Seq<Seq<char>>, s: Seq<Exp>, k: int) -> EOut
    decreases s, k,
{
    if k <= 0 || k > s.len() {
        EOut::Done(id, l, Seq::empty(), ValV::Nothing)
    } else {
        match eflat(c, id, l, s, k - 1) {
            EOut::Done(id1, l1, ss, _) => match es(c, id1, l1, s[k - 1]) {
                EOut::Done(id2, l2, s2, _) => EOut::Done(id2, l2, ss + s2, ValV::Nothing),
                o => o,
            },
            o => o,
        }
    }
}

/// Translating an expression as statements.
#[verifier::opaque]
pub open spec fn es(c: EmCtx, id: u64, l: Seq<Seq<char>>, e: Exp) -> EOut
    decreases e, 1int,
{
    proof {
        assert(decreases_to!(e => e.val));
    }
    match *e.val {
        ExpVal::Return(m) => match m {
            None => EOut::Done(id, l, seq![StatementV::Return(ValV::Nothing)], ValV::Nothing),
            Some(x) => match ev(c, id, l, x) {
                EOut::Done(id1, l1, s, v) => EOut::Done(id1, l1, s.push(StatementV::Return(v)), ValV::Nothing),
                o => o,
            },
        },
        ExpVal::If(cond, then, u) => match ev(c, id, l, cond) {
            EOut::Done(id1, l1, s, cv) => match eblock(c, id1, l1, then, false) {
                EOut::Done(id2, l2, tb, _) => match eelse_block(c, id2, l2, u) {
                    EOut::Done(id3, l3, ub, _) => EOut::Done(id3, l3, s.push(StatementV::If(cv, tb, ub)), ValV::Nothing),
                    o => o,
                },
                o => o,
            },
            o => o,
        },
        ExpVal::For(ci, range, body) => {
            proof {
                assert(decreases_to!(range => range.start));
                assert(decreases_to!(range => range.end));
            }
            match ev(c, id, l, range.start) {
                EOut::Done(id1, l1, s1, v1) => match ev(c, id1, l1, range.end) {
                    EOut::Done(id2, l2, s2, v2) => {
                        let bv = inter_name(id2);
                        let cn = ci.name@;
                        match eblock(c, next_id(id2), add_name_v(l2, bv), body, false) {
                            EOut::Done(id3, l3, bb, _) => {
                                let inc = set_to(cn, CallableV::Bin(hir::BinOp::Add, ValV::Var(cn), ValV::Const(TypeV::Int64, 1)));
                                let upd = set_to(bv, CallableV::Bin(hir::BinOp::Leq, ValV::Var(cn), v2));
                                EOut::Done(
                                    id3,
                                    l3,
                                    (s1 + s2).push(set_to(cn, CallableV::Assign(v1))).push(StatementV::While(ValV::Var(bv), bb.push(inc).push(upd))),
                                    ValV::Nothing,
                                )
                            },
                            o => o,
                        }
                    },
                    o => o,
                },
                o => o,
            }
        },
        ExpVal::While(cond, body) => match ev(c, id, l, cond) {
            EOut::Done(id1, l1, sc, vc) => match eblock(c, id1, l1, body, false) {
                EOut::Done(id2, l2, wb, _) => EOut::Done(id2, l2, sc.push(StatementV::While(vc, wb + sc)), ValV::Nothing),
                o => o,
            },
            o => o,
        },
        ExpVal::Call(f, args) => {
            proof {
                assert(decreases_to!(args => args@));
            }
            match evs(c, id, l, args@, args@.len() as int) {
                EVals::Done(id1, l1, s, vals) => {
                    let out = inter_name(id1);
                    EOut::Done(next_id(id1), add_name_v(l1, out), s.push(set_to(out, CallableV::Call(f@, false, vals))), ValV::Nothing)
                },
                EVals::Fail(m) => EOut::Fail(m),
            }
        },
        ExpVal::Assign(lv, x) => match lv.in_exp {
            None => eglobal_assign(c, id, l, lv.name@, x),
            Some(_) => ecomplex_assign(c, id, l, e),
        },
        ExpVal::Block(b) => eblock(c, id, l, b, false),
        _ => EOut::Done(id, l, Seq::empty(), ValV::Nothing),
    }
}

/// Translating the assignment of `x` to a variable, which becomes a local
/// variable unless it is a parameter.
#[verifier::opaque]
pub open spec fn eglobal_assign(c: EmCtx, id: u64, l: Seq<Seq<char>>, name: Seq<char>, x: Exp) -> EOut
    decreases x, 2int,
{
    let l1 = if c.params.contains(name) { l } else { add_name_v(l, name) };
    match ev(c, id, l1, x) {
        EOut::Done(id2, l2, s, v) => EOut::Done(id2, l2, s.push(set_to(name, CallableV::Assign(v))), ValV::Nothing),
        o => o,
    }
}

/// Translating the assignment `e` of a field: the structure must be held by
/// a bound variable and have a structure type.
#[verifier::opaque]
pub open spec fn ecomplex_assign(c: EmCtx, id: u64, l: Seq<Seq<char>>, e: Exp) -> EOut
    decreases e, 0int,
{
    proof {
        assert(decreases_to!(e => e.val));
    }
    match *e.val {
        ExpVal::Assign(lv, x) => match lv.in_exp {
            Some(p) => match ev(c, id, l, p) {
                EOut::Done(id1, l1, s, sv) => match ev(c, id1, l1, x) {
                    EOut::Done(id2, l2, rs, rv) => match sv {
                        ValV::Var(n) => if !c.params.contains(n) && !l2.contains(n) && old_name(c, n) is None {
                            EOut::Fail(
                                unbound_struct_text(n) + names_debug(c.params) + ", locals: "@ + names_debug(l2) + ", globals: "@
                                    + names_debug(c.globals) + ")!"@
                            )
                        } else {
                            match p.static_ty@ {
                                StaticTypeV::Struct(sn) => EOut::Done(
                                    id2,
                                    l2,
                                    (s + rs).push(StatementV::Call(LValueV::Access(sv, sn, lv.name@), CallableV::Assign(rv))),
                                    ValV::Nothing,
                                ),
                                _ => EOut::Fail(not_structure_text(p.static_ty@)),
                            }
                        },
                        _ => EOut::Fail(not_variable_text() + val_debug(sv) + "'"@),
                    },
                    o => o,
                },
                o => o,
            },
            None => EOut::Done(id, l, Seq::empty(), ValV::Nothing),
        },
        _ => EOut::Done(id, l, Seq::empty(), ValV::Nothing),
    }
}

/// Translating a block as statements; where returns may be implicit and the
/// block does not end with a semicolon, its value is returned.
#[verifier::opaque]
pub open spec fn eblock(c: EmCtx, id: u64, l: Seq<Seq<char>>, b: Block, implicit: bool) -> EOut
    decreases b, 2int,
{
    proof {
        assert(decreases_to!(b => b.val));
        assert(decreases_to!(b.val => b.val@));
    }
    if implicit && !b.trailing_semicolon {
        match eb_value(c, id, l, b) {
            EOut::Done(id1, l1, s, v) => EOut::Done(id1, l1, s.push(StatementV::Return(v)), ValV::Nothing),
            o => o,
        }
    } else {
        eflat(c, id, l, b.val@, b.val@.len() as int)
    }
}

/// Translating the `else` branches as statements.
#[verifier::opaque]
pub open spec fn eelse_block(c: EmCtx, id: u64, l: Seq<Seq<char>>, u: Else) -> EOut
    decreases u, 1int,
{
    proof {
        assert(decreases_to!(u => u.val));
    }
    match *u.val {
        ElseVal::End => EOut::Done(id, l, Seq::empty(), ValV::Nothing),
        ElseVal::Else(b) => eblock(c, id, l, b, false),
        ElseVal::ElseIf(cond, t, rest) => match ev(c, id, l, cond) {
            EOut::Done(id1, l1, s, cv) => match eblock(c, id1, l1, t, false) {
                EOut::Done(id2, l2, tb, _) => match eelse_block(c, id2, l2, rest) {
                    EOut::Done(id3, l3, ub, _) => EOut::Done(id3, l3, s.push(StatementV::If(cv, tb, ub)), ValV::Nothing),
                    o => o,
                },
                o => o,
            },
            o => o,
        },
    }
}

/// Translating the `else` branches where their value is needed.
#[verifier::opaque]
pub open spec fn eelse_value(c: EmCtx, id: u64, l: Seq<Seq<char>>, u: Else) -> EOut
    decreases u, 1int,
{
    proof {
        assert(decreases_to!(u => u.val));
    }
    match *u.val {
        ElseVal::End => EOut::Done(id, l, Seq::empty(), ValV::Nothing),
        ElseVal::Else(b) => eb_value(c, id, l, b),
        ElseVal::ElseIf(cond, t, rest) => {
            let out = inter_name(id);
            match ev(c, next_id(id), add_name_v(l, out), cond) {
                EOut::Done(id2, l2, s, cv) => match eb_value(c, id2, l2, t) {
                    EOut::Done(id3, l3, ts, tv) => match eelse_value(c, id3, l3, rest) {
                        EOut::Done(id4, l4, us, uv) => EOut::Done(
                            id4,
                            l4,
                            s.push(StatementV::If(cv, ts.push(set_to(out, CallableV::Assign(tv))), us.push(set_to(out, CallableV::Assign(uv))))),
                            ValV::Var(out),
                        ),
                        o => o,
                    },
                    o => o,
                },
                o => o,
            }
        },
    }
}

// ---------------------------------------------------------------------------
// Statements as values.

/// All the statements of a list, as values.
pub open spec fn sv(s: Seq<hir::Statement>) -> Seq<StatementV> {
    stmts_v(s, s.len() as int)
}

proof fn lemma_stmts_v(s: Seq<hir::Statement>, k: int)
    requires
        0 <= k <= s.len(),
    ensures
        stmts_v(s, k).len() == k,
        forall|i: int| 0 <= i < k ==> #[trigger] stmts_v(s, k)[i] == stmt_v(s[i]),
    decreases k,
{
    if k > 0 {
        lemma_stmts_v(s, k - 1);
    }
}

proof fn lemma_sv(s: Seq<hir::Statement>)
    ensures
        sv(s) == s.map_values(|x: hir::Statement| stmt_v(x)),
{
    lemma_stmts_v(s, s.len() as int);
    assert(sv(s) =~= s.map_values(|x: hir::Statement| stmt_v(x)));
}

proof fn lemma_sv_push(a: Seq<hir::Statement>, x: hir::Statement)
    ensures
        sv(a.push(x)) == sv(a).push(stmt_v(x)),
{
    lemma_sv(a);
    lemma_sv(a.push(x));
    assert(a.push(x).map_values(|y: hir::Statement| stmt_v(y)) =~= a.map_values(|y: hir::Statement| stmt_v(y)).push(stmt_v(x)));
}

proof fn lemma_sv_add(a: Seq<hir::Statement>, b: Seq<hir::Statement>)
    ensures
        sv(a + b) == sv(a) + sv(b),
{
    lemma_sv(a);
    lemma_sv(b);
    lemma_sv(a + b);
    assert((a + b).map_values(|y: hir::Statement| stmt_v(y)) =~= a.map_values(|y: hir::Statement| stmt_v(y)) + b.map_values(
        |y: hir::Statement| stmt_v(y),
    ));
}


// ---------------------------------------------------------------------------
// The emitter.

/// The names of renamed global variables start with `_g`.
pub open spec fn g_named(s: Seq<char>) -> bool {
    s.len() >= 2 && s[0] == '_' && s[1] == 'g'
}

/// The state of the translation: the next intermediate number, the local
/// variables of the function being translated, its parameters, the global
/// variables with their new names, the new names, and the structures.
pub struct Emitter {
    pub next_intermediate_variable_id: u64,
    pub current_local_vars: Vec<String>,
    pub current_params: Vec<String>,
    pub old_global_vars: Vec<(String, String)>,
    pub global_vars: Vec<String>,
    pub structure_names: Vec<String>,
}

/// The pairs of names, as values.
pub open spec fn pairs_v(s: Seq<(String, String)>) -> Seq<(Seq<char>, Seq<char>)> {
    s.map_values(|p: (String, String)| (p.0@, p.1@))
}

impl Emitter {
    /// What a function body's translation reads.
    pub open spec fn ctx(&self) -> EmCtx {
        EmCtx {
            params: names_v(self.current_params@),
            globals: names_v(self.global_vars@),
            olds: pairs_v(self.old_global_vars@),
            structs: names_v(self.structure_names@),
        }
    }

    /// The new names start with `_g`, and each global variable is renamed
    /// once.
    pub open spec fn wf(&self) -> bool {
        &&& forall|i: int| 0 <= i < self.global_vars@.len() ==> g_named(#[trigger] self.global_vars@[i]@)
        &&& forall|i: int, j: int|
            0 <= i < self.old_global_vars@.len() && 0 <= j < self.old_global_vars@.len() && i != j
                ==> #[trigger] self.old_global_vars@[i].0@ != #[trigger] self.old_global_vars@[j].0@
    }

    /// The tables that translating a body reads are kept.
    pub open spec fn keeps(&self, other: &Self) -> bool {
        &&& self.current_params == other.current_params
        &&& self.old_global_vars == other.old_global_vars
        &&& self.global_vars == other.global_vars
        &&& self.structure_names == other.structure_names
    }

    /// The next intermediate number and the local variables.
    pub open spec fn id(&self) -> u64 {
        self.next_intermediate_variable_id
    }

    pub open spec fn locals(&self) -> Seq<Seq<char>> {
        names_v(self.current_local_vars@)
    }

    /// The local variables of `other` are still local variables.
    pub open spec fn grows(&self, other: &Self) -> bool {
        forall|n: Seq<char>| #[trigger] other.locals().contains(n) ==> self.locals().contains(n)
    }
}

/// The statements of a translated block.
pub open spec fn block_result(r: Result<hir::Block, String>) -> Result<Vec<hir::Statement>, String> {
    match r {
        Ok(x) => Ok(x.stmts),
        Err(m) => Err(m),
    }
}

/// The result of translating an expression agrees with what is expected.
pub open spec fn value_emitted(o: EOut, r: Result<(Vec<hir::Statement>, hir::Val), String>, em: Emitter) -> bool {
    match o {
        EOut::Done(id, l, ss, v) => r is Ok && em.id() == id && em.locals() == l && sv(r->Ok_0.0@) == ss && val_v(r->Ok_0.1) == v,
        EOut::Fail(m) => r is Err && r->Err_0@ == m,
    }
}

/// The same for statements.
pub open spec fn stmts_emitted(o: EOut, r: Result<Vec<hir::Statement>, String>, em: Emitter) -> bool {
    match o {
        EOut::Done(id, l, ss, _) => r is Ok && em.id() == id && em.locals() == l && sv(r->Ok_0@) == ss,
        EOut::Fail(m) => r is Err && r->Err_0@ == m,
    }
}

/// The same for a list of values.
pub open spec fn values_emitted(o: EVals, r: Result<(Vec<hir::Statement>, Vec<hir::Val>), String>, em: Emitter) -> bool {
    match o {
        EVals::Done(id, l, ss, vs) => r is Ok && em.id() == id && em.locals() == l && sv(r->Ok_0.0@) == ss && vals_v(r->Ok_0.1@) == vs,
        EVals::Fail(m) => r is Err && r->Err_0@ == m,
    }
}

proof fn lemma_add_name_grows(s: Seq<Seq<char>>, n: Seq<char>)
    ensures
        forall|m: Seq<char>| #[trigger] s.contains(m) ==> add_name_v(s, n).contains(m),
{
    assert forall|m: Seq<char>| #[trigger] s.contains(m) implies add_name_v(s, n).contains(m) by {
        if !s.contains(n) {
            let q = choose|q: int| 0 <= q < s.len() && s[q] == m;
            assert(s.push(n)[q] == m);
        }
    }
}

fn contains_name(v: &Vec<String>, n: &str) -> (r: bool)
    ensures
        r == names_v(v@).contains(n@),
{
    let mut i: usize = 0;
    while i < v.len()
        invariant
            i <= v@.len(),
            forall|j: int| 0 <= j < i ==> v@[j]@ != n@,
        decreases v.len() - i,
    {
        if str_eq(v[i].as_str(), n) {
            assert(names_v(v@)[i as int] == n@);
            return true;
        }
        i = i + 1;
    }
    assert(!names_v(v@).contains(n@)) by {
        if names_v(v@).contains(n@) {
            let j = choose|j: int| 0 <= j < names_v(v@).len() && names_v(v@)[j] == n@;
            assert(v@[j]@ == n@);
        }
    }
    false
}

fn inter_name_exec(id: u64) -> (r: String)
    ensures
        r@ == inter_name(id),
{
    proof {
        reveal_strlit("__intermediate_internal");
    }
    let d = u64_to_decimal(id);
    let mut r = owned("__intermediate_internal");
    r.append(d.as_str());
    r
}

fn set_stmt(out: String, c: hir::Callable) -> (r: hir::Statement)
    ensures
        stmt_v(r) == set_to(out@, hir::callable_v(c)),
{
    hir::Statement::Call(hir::LValue::Var(out), c)
}

/// The name given to the value of an expression that is not translated.
fn placeholder(e: &Exp) -> (r: String)
    ensures
        r@ == placeholder_name(*e),
{
    proof {
        reveal_strlit("I_AM_A_PLACEHOLDER_CHECK_ME_PLEASE: ");
    }
    let t = exp_text(e);
    cat2("I_AM_A_PLACEHOLDER_CHECK_ME_PLEASE: ", t.as_str())
}

/// How a list of names is written by Rust's `Debug` formatting.
pub open spec fn names_debug(v: Seq<Seq<char>>) -> Seq<char> {
    "["@ + comma_list(v.map_values(|n: Seq<char>| debug_quoted(n))) + "]"@
}

/// A list of names, as Rust's `Debug` formatting writes it.
fn names_debug_text(v: &Vec<String>) -> (r: String)
    ensures
        r@ == names_debug(names_v(v@)),
{
    proof {
        reveal_strlit("[");
        reveal_strlit("]");
    }
    let ghost items = names_v(v@).map_values(|n: Seq<char>| debug_quoted(n));
    let mut r = owned("[");
    let mut i: usize = 0;
    while i < v.len()
        invariant
            i <= v@.len(),
            items == names_v(v@).map_values(|n: Seq<char>| debug_quoted(n)),
            r@ == "["@ + comma_list(items.take(i as int)),
        decreases v.len() - i,
    {
        let q = debug_quote(v[i].as_str());
        proof {
            lemma_comma_list_step(items, i as int);
        }
        append_item(&mut r, i, q.as_str());
        i = i + 1;
    }
    assert(items.take(v@.len() as int) =~= items);
    r.append("]");
    r
}

/// How a type tag is written by Rust's `Debug` formatting.
pub open spec fn type_debug(t: TypeV) -> Seq<char> {
    match t {
        TypeV::Nothing => "Nothing"@,
        TypeV::Int64 => "Int64"@,
        TypeV::Bool => "Bool"@,
        TypeV::Str => "Str"@,
        TypeV::Struct(s) => "Struct("@ + debug_quoted(s) + ")"@,
    }
}

/// How a value is written by Rust's `Debug` formatting.
pub open spec fn val_debug(v: ValV) -> Seq<char> {
    match v {
        ValV::Nothing => "Nothing"@,
        ValV::Var(s) => "Var("@ + debug_quoted(s) + ")"@,
        ValV::Const(t, c) => "Const("@ + type_debug(t) + ", "@ + decimal(c as nat) + ")"@,
        ValV::Str(s) => "Str("@ + debug_quoted(s) + ")"@,
    }
}

fn type_debug_text(t: &hir::Type) -> (r: String)
    ensures
        r@ == type_debug(hir::type_v(*t)),
{
    proof {
        reveal_strlit("Nothing");
        reveal_strlit("Int64");
        reveal_strlit("Bool");
        reveal_strlit("Str");
        reveal_strlit("Struct(");
        reveal_strlit(")");
    }
    match t {
        hir::Type::Nothing => owned("Nothing"),
        hir::Type::Int64 => owned("Int64"),
        hir::Type::Bool => owned("Bool"),
        hir::Type::Str => owned("Str"),
        hir::Type::Struct(n) => {
            let q = debug_quote(n.as_str());
            cat3("Struct(", q.as_str(), ")")
        },
    }
}

/// A value, as Rust's `Debug` formatting writes it.
fn val_debug_text(v: &hir::Val) -> (r: String)
    ensures
        r@ == val_debug(val_v(*v)),
{
    proof {
        reveal_strlit("Nothing");
        reveal_strlit("Var(");
        reveal_strlit("Const(");
        reveal_strlit(", ");
        reveal_strlit("Str(");
        reveal_strlit(")");
    }
    match v {
        hir::Val::Nothing => owned("Nothing"),
        hir::Val::Var(n) => {
            let q = debug_quote(n.as_str());
            cat3("Var(", q.as_str(), ")")
        },
        hir::Val::Const(t, c) => {
            let td = type_debug_text(t);
            let d = u64_to_decimal(*c);
            let mut r = cat3("Const(", td.as_str(), ", ");
            r.append(d.as_str());
            r.append(")");
            r
        },
        hir::Val::Str(n) => {
            let q = debug_quote(n.as_str());
            cat3("Str(", q.as_str(), ")")
        },
    }
}

impl Emitter {
    /// A fresh intermediate variable, which becomes a local variable.
    fn mk_intermediate_var(&mut self) -> (r: String)
        requires
            old(self).wf(),
        ensures
            final(self).wf(),
            final(self).keeps(old(self)),
            r@ == inter_name(old(self).id()),
            final(self).id() == next_id(old(self).id()),
            final(self).locals() == add_name_v(old(self).locals(), r@),
            final(self).grows(old(self)),
    {
        let mut out = inter_name_exec(self.next_intermediate_variable_id);
        proof {
            reveal_strlit("__intermediate_internal");
        }
        while contains_name(&self.global_vars, out.as_str())
            invariant
                self.wf(),
                *self == *old(self),
                out@ == inter_name(self.id()),
            decreases 0nat,
        {
            proof {
                let q = choose|q: int| 0 <= q < names_v(self.global_vars@).len() && names_v(self.global_vars@)[q] == out@;
                assert(g_named(self.global_vars@[q]@));
                reveal_strlit("__intermediate_internal");
                assert(("__intermediate_internal"@ + decimal(self.id() as nat))[1] == '_');
                assert(out@[1] == '_');
                assert(false);
            }
            out = inter_name_exec(self.next_intermediate_variable_id);
        }
        add_name(&mut self.current_local_vars, &out);
        proof {
            lemma_add_name_grows(old(self).locals(), out@);
        }
        if self.next_intermediate_variable_id == u64::MAX {
            self.next_intermediate_variable_id = 0;
        } else {
            self.next_intermediate_variable_id = self.next_intermediate_variable_id + 1;
        }
        out
    }
}

proof fn lemma_unfold_eb_value(c: EmCtx, id: u64, l: Seq<Seq<char>>, b: Block)
    ensures
        eb_value(c, id, l, b) == ({
    let n = b.val@.len();
    if n == 0 {
        EOut::Done(id, l, Seq::empty(), ValV::Nothing)
    } else {
        match eflat(c, id, l, b.val@, n - 1) {
            EOut::Done(id1, l1, s, _) => match ev(c, id1, l1, b.val@[n - 1]) {
                EOut::Done(id2, l2, s2, v) => EOut::Done(id2, l2, s + s2, v),
                o => o,
            },
            o => o,
        }
    }
        }),
{
    reveal(ev);
    reveal(evs);
    reveal(eb_value);
    reveal(eflat);
    reveal(es);
    reveal(eglobal_assign);
    reveal(ecomplex_assign);
    reveal(eblock);
    reveal(eelse_block);
    reveal(eelse_value);
}

proof fn lemma_unfold_eflat(c: EmCtx, id: u64, l: Seq<Seq<char>>, s: Seq<Exp>, k: int)
    ensures
        eflat(c, id, l, s, k) == ({
    if k <= 0 || k > s.len() {
        EOut::Done(id, l, Seq::empty(), ValV::Nothing)
    } else {
        match eflat(c, id, l, s, k - 1) {
            EOut::Done(id1, l1, ss, _) => match es(c, id1, l1, s[k - 1]) {
                EOut::Done(id2, l2, s2, _) => EOut::Done(id2, l2, ss + s2, ValV::Nothing),
                o => o,
            },
            o => o,
        }
    }
        }),
{
    reveal(ev);
    reveal(evs);
    reveal(eb_value);
    reveal(eflat);
    reveal(es);
    reveal(eglobal_assign);
    reveal(ecomplex_assign);
    reveal(eblock);
    reveal(eelse_block);
    reveal(eelse_value);
}

proof fn lemma_unfold_es(c: EmCtx, id: u64, l: Seq<Seq<char>>, e: Exp)
    ensures
        es(c, id, l, e) == ({
    match *e.val {
        ExpVal::Return(m) => match m {
            None => EOut::Done(id, l, seq![StatementV::Return(ValV::Nothing)], ValV::Nothing),
            Some(x) => match ev(c, id, l, x) {
                EOut::Done(id1, l1, s, v) => EOut::Done(id1, l1, s.push(StatementV::Return(v)), ValV::Nothing),
                o => o,
            },
        },
        ExpVal::If(cond, then, u) => match ev(c, id, l, cond) {
            EOut::Done(id1, l1, s, cv) => match eblock(c, id1, l1, then, false) {
                EOut::Done(id2, l2, tb, _) => match eelse_block(c, id2, l2, u) {
                    EOut::Done(id3, l3, ub, _) => EOut::Done(id3, l3, s.push(StatementV::If(cv, tb, ub)), ValV::Nothing),
                    o => o,
                },
                o => o,
            },
            o => o,
        },
        ExpVal::For(ci, range, body) => {
            match ev(c, id, l, range.start) {
                EOut::Done(id1, l1, s1, v1) => match ev(c, id1, l1, range.end) {
                    EOut::Done(id2, l2, s2, v2) => {
                        let bv = inter_name(id2);
                        let cn = ci.name@;
                        match eblock(c, next_id(id2), add_name_v(l2, bv), body, false) {
                            EOut::Done(id3, l3, bb, _) => {
                                let inc = set_to(cn, CallableV::Bin(hir::BinOp::Add, ValV::Var(cn), ValV::Const(TypeV::Int64, 1)));
                                let upd = set_to(bv, CallableV::Bin(hir::BinOp::Leq, ValV::Var(cn), v2));
                                EOut::Done(
                                    id3,
                                    l3,
                                    (s1 + s2).push(set_to(cn, CallableV::Assign(v1))).push(StatementV::While(ValV::Var(bv), bb.push(inc).push(upd))),
                                    ValV::Nothing,
                                )
                            },
                            o => o,
                        }
                    },
                    o => o,
                },
                o => o,
            }
        },
        ExpVal::While(cond, body) => match ev(c, id, l, cond) {
            EOut::Done(id1, l1, sc, vc) => match eblock(c, id1, l1, body, false) {
                EOut::Done(id2, l2, wb, _) => EOut::Done(id2, l2, sc.push(StatementV::While(vc, wb + sc)), ValV::Nothing),
                o => o,
            },
            o => o,
        },
        ExpVal::Call(f, args) => {
            match evs(c, id, l, args@, args@.len() as int) {
                EVals::Done(id1, l1, s, vals) => {
                    let out = inter_name(id1);
                    EOut::Done(next_id(id1), add_name_v(l1, out), s.push(set_to(out, CallableV::Call(f@, false, vals))), ValV::Nothing)
                },
                EVals::Fail(m) => EOut::Fail(m),
            }
        },
        ExpVal::Assign(lv, x) => match lv.in_exp {
            None => eglobal_assign(c, id, l, lv.name@, x),
            Some(_) => ecomplex_assign(c, id, l, e),
        },
        ExpVal::Block(b) => eblock(c, id, l, b, false),
        _ => EOut::Done(id, l, Seq::empty(), ValV::Nothing),
    }
        }),
{
    reveal(ev);
    reveal(evs);
    reveal(eb_value);
    reveal(eflat);
    reveal(es);
    reveal(eglobal_assign);
    reveal(ecomplex_assign);
    reveal(eblock);
    reveal(eelse_block);
    reveal(eelse_value);
}

proof fn lemma_unfold_eblock(c: EmCtx, id: u64, l: Seq<Seq<char>>, b: Block, implicit: bool)
    ensures
        eblock(c, id, l, b, implicit) == ({
    if implicit && !b.trailing_semicolon {
        match eb_value(c, id, l, b) {
            EOut::Done(id1, l1, s, v) => EOut::Done(id1, l1, s.push(StatementV::Return(v)), ValV::Nothing),
            o => o,
        }
    } else {
        eflat(c, id, l, b.val@, b.val@.len() as int)
    }
        }),
{
    reveal(ev);
    reveal(evs);
    reveal(eb_value);
    reveal(eflat);
    reveal(es);
    reveal(eglobal_assign);
    reveal(ecomplex_assign);
    reveal(eblock);
    reveal(eelse_block);
    reveal(eelse_value);
}

proof fn lemma_unfold_eelse_block(c: EmCtx, id: u64, l: Seq<Seq<char>>, u: Else)
    ensures
        eelse_block(c, id, l, u) == ({
    match *u.val {
        ElseVal::End => EOut::Done(id, l, Seq::empty(), ValV::Nothing),
        ElseVal::Else(b) => eblock(c, id, l, b, false),
        ElseVal::ElseIf(cond, t, rest) => match ev(c, id, l, cond) {
            EOut::Done(id1, l1, s, cv) => match eblock(c, id1, l1, t, false) {
                EOut::Done(id2, l2, tb, _) => match eelse_block(c, id2, l2, rest) {
                    EOut::Done(id3, l3, ub, _) => EOut::Done(id3, l3, s.push(StatementV::If(cv, tb, ub)), ValV::Nothing),
                    o => o,
                },
                o => o,
            },
            o => o,
        },
    }
        }),
{
    reveal(ev);
    reveal(evs);
    reveal(eb_value);
    reveal(eflat);
    reveal(es);
    reveal(eglobal_assign);
    reveal(ecomplex_assign);
    reveal(eblock);
    reveal(eelse_block);
    reveal(eelse_value);
}

proof fn lemma_unfold_eelse_value(c: EmCtx, id: u64, l: Seq<Seq<char>>, u: Else)
    ensures
        eelse_value(c, id, l, u) == ({
    match *u.val {
        ElseVal::End => EOut::Done(id, l, Seq::empty(), ValV::Nothing),
        ElseVal::Else(b) => eb_value(c, id, l, b),
        ElseVal::ElseIf(cond, t, rest) => {
            let out = inter_name(id);
            match ev(c, next_id(id), add_name_v(l, out), cond) {
                EOut::Done(id2, l2, s, cv) => match eb_value(c, id2, l2, t) {
                    EOut::Done(id3, l3, ts, tv) => match eelse_value(c, id3, l3, rest) {
                        EOut::Done(id4, l4, us, uv) => EOut::Done(
                            id4,
                            l4,
                            s.push(StatementV::If(cv, ts.push(set_to(out, CallableV::Assign(tv))), us.push(set_to(out, CallableV::Assign(uv))))),
                            ValV::Var(out),
                        ),
                        o => o,
                    },
                    o => o,
                },
                o => o,
            }
        },
    }
        }),
{
    reveal(ev);
    reveal(evs);
    reveal(eb_value);
    reveal(eflat);
    reveal(es);
    reveal(eglobal_assign);
    reveal(ecomplex_assign);
    reveal(eblock);
    reveal(eelse_block);
    reveal(eelse_value);
}

proof fn lemma_unfold_evs(c: EmCtx, id: u64, l: Seq<Seq<char>>, s: Seq<Exp>, k: int)
    ensures
        evs(c, id, l, s, k) == ({
    if k <= 0 || k > s.len() {
        EVals::Done(id, l, Seq::empty(), Seq::empty())
    } else {
        match evs(c, id, l, s, k - 1) {
            EVals::Done(id1, l1, ss, vs) => match ev(c, id1, l1, s[k - 1]) {
                EOut::Done(id2, l2, s2, v) => EVals::Done(id2, l2, ss + s2, vs.push(v)),
                EOut::Fail(m) => EVals::Fail(m),
            },
            o => o,
        }
    }
        }),
{
    reveal(ev);
    reveal(evs);
    reveal(eb_value);
    reveal(eflat);
    reveal(es);
    reveal(eglobal_assign);
    reveal(ecomplex_assign);
    reveal(eblock);
    reveal(eelse_block);
    reveal(eelse_value);
}

proof fn lemma_unfold_ev(c: EmCtx, id: u64, l: Seq<Seq<char>>, e: Exp)
    ensures
        ev(c, id, l, e) == ({
    match *e.val {
        ExpVal::BinOp(op, a, b) => match ev(c, id, l, a) {
            EOut::Done(id1, l1, sa, va) => match ev(c, id1, l1, b) {
                EOut::Done(id2, l2, sb, vb) => {
                    let out = inter_name(id2);
                    EOut::Done(next_id(id2), add_name_v(l2, out), (sa + sb).push(set_to(out, bin_callable(op, va, vb))), ValV::Var(out))
                },
                o => o,
            },
            o => o,
        },
        ExpVal::Block(b) => eb_value(c, id, l, b),
        ExpVal::UnaryOp(op, x) => match ev(c, id, l, x) {
            EOut::Done(id1, l1, s, v) => {
                let out = inter_name(id1);
                EOut::Done(next_id(id1), add_name_v(l1, out), s.push(set_to(out, CallableV::Unary(hun(op), v))), ValV::Var(out))
            },
            o => o,
        },
        ExpVal::Int(k) => EOut::Done(id, l, Seq::empty(), ValV::Const(TypeV::Int64, k as u64)),
        ExpVal::Bool(b) => EOut::Done(id, l, Seq::empty(), ValV::Const(TypeV::Bool, if b { 1u64 } else { 0u64 })),
        ExpVal::Str(s) => EOut::Done(id, l, Seq::empty(), ValV::Str(s@)),
        ExpVal::LValue(lv) => match lv.in_exp {
            None => if lv.scope == Scope::Local {
                EOut::Done(id, l, Seq::empty(), ValV::Var(lv.name@))
            } else {
                match old_name(c, lv.name@) {
                    None => EOut::Fail(no_global_text(e.static_ty@, lv.name@)),
                    Some(r) => EOut::Done(id, l, Seq::empty(), ValV::Var(r)),
                }
            },
            Some(p) => match p.static_ty@ {
                StaticTypeV::Struct(sn) => match ev(c, id, l, p) {
                    EOut::Done(id1, l1, s, v) => {
                        let out = inter_name(id1);
                        EOut::Done(next_id(id1), add_name_v(l1, out), s.push(set_to(out, CallableV::Access(v, sn, lv.name@))), ValV::Var(out))
                    },
                    o => o,
                },
                _ => EOut::Fail(no_field_text(p.static_ty@, lv.name@)),
            },
        },
        ExpVal::Mul(k, v) => {
            let out = inter_name(id);
            EOut::Done(
                next_id(id),
                add_name_v(l, out),
                seq![set_to(out, CallableV::Bin(hir::BinOp::Mul, ValV::Const(TypeV::Int64, k as u64), ValV::Var(v@)))],
                ValV::Var(out),
            )
        },
        ExpVal::LMul(k, b) => match eb_value(c, id, l, b) {
            EOut::Done(id1, l1, s, bv) => {
                let out = inter_name(id1);
                EOut::Done(
                    next_id(id1),
                    add_name_v(l1, out),
                    s.push(set_to(out, CallableV::Bin(hir::BinOp::Mul, ValV::Const(TypeV::Int64, k as u64), bv))),
                    ValV::Var(out),
                )
            },
            o => o,
        },
        ExpVal::RMul(x, v) => {
            let out = inter_name(id);
            match ev(c, next_id(id), add_name_v(l, out), x) {
                EOut::Done(id2, l2, s, xv) => EOut::Done(id2, l2, s.push(set_to(out, CallableV::Bin(hir::BinOp::Mul, xv, ValV::Var(v@)))), ValV::Var(out)),
                o => o,
            }
        },
        ExpVal::Return(m) => match m {
            None => EOut::Done(id, l, Seq::empty(), ValV::Nothing),
            Some(x) => ev(c, id, l, x),
        },
        ExpVal::Call(name, args) => {
            let out = inter_name(id);
            match evs(c, next_id(id), add_name_v(l, out), args@, args@.len() as int) {
                EVals::Done(id2, l2, s, vals) => EOut::Done(
                    id2,
                    l2,
                    s.push(set_to(out, if c.structs.contains(name@) { CallableV::Alloc(name@) } else { CallableV::Call(name@, false, vals) })),
                    ValV::Var(out),
                ),
                EVals::Fail(m) => EOut::Fail(m),
            }
        },
        ExpVal::If(cond, then, u) => {
            let out = inter_name(id);
            match ev(c, next_id(id), add_name_v(l, out), cond) {
                EOut::Done(id2, l2, s, cv) => match eb_value(c, id2, l2, then) {
                    EOut::Done(id3, l3, ts, tv) => match eelse_value(c, id3, l3, u) {
                        EOut::Done(id4, l4, us, uv) => EOut::Done(
                            id4,
                            l4,
                            s.push(StatementV::If(cv, ts.push(set_to(out, CallableV::Assign(tv))), us.push(set_to(out, CallableV::Assign(uv))))),
                            ValV::Var(out),
                        ),
                        o => o,
                    },
                    o => o,
                },
                o => o,
            }
        },
        _ => EOut::Done(id, l, Seq::empty(), ValV::Var(placeholder_name(e))),
    }
        }),
{
    reveal(ev);
    reveal(evs);
    reveal(eb_value);
    reveal(eflat);
    reveal(es);
    reveal(eglobal_assign);
    reveal(ecomplex_assign);
    reveal(eblock);
    reveal(eelse_block);
    reveal(eelse_value);
}

proof fn lemma_unfold_eglobal_assign(c: EmCtx, id: u64, l: Seq<Seq<char>>, name: Seq<char>, x: Exp)
    ensures
        eglobal_assign(c, id, l, name, x) == ({
    let l1 = if c.params.contains(name) { l } else { add_name_v(l, name) };
    match ev(c, id, l1, x) {
        EOut::Done(id2, l2, s, v) => EOut::Done(id2, l2, s.push(set_to(name, CallableV::Assign(v))), ValV::Nothing),
        o => o,
    }
        }),
{
    reveal(ev);
    reveal(evs);
    reveal(eb_value);
    reveal(eflat);
    reveal(es);
    reveal(eglobal_assign);
    reveal(ecomplex_assign);
    reveal(eblock);
    reveal(eelse_block);
    reveal(eelse_value);
}

proof fn lemma_unfold_ecomplex_assign(c: EmCtx, id: u64, l: Seq<Seq<char>>, e: Exp)
    ensures
        ecomplex_assign(c, id, l, e) == ({
    match *e.val {
        ExpVal::Assign(lv, x) => match lv.in_exp {
            Some(p) => match ev(c, id, l, p) {
                EOut::Done(id1, l1, s, sv) => match ev(c, id1, l1, x) {
                    EOut::Done(id2, l2, rs, rv) => match sv {
                        ValV::Var(n) => if !c.params.contains(n) && !l2.contains(n) && old_name(c, n) is None {
                            EOut::Fail(
                                unbound_struct_text(n) + names_debug(c.params) + ", locals: "@ + names_debug(l2) + ", globals: "@
                                    + names_debug(c.globals) + ")!"@
                            )
                        } else {
                            match p.static_ty@ {
                                StaticTypeV::Struct(sn) => EOut::Done(
                                    id2,
                                    l2,
                                    (s + rs).push(StatementV::Call(LValueV::Access(sv, sn, lv.name@), CallableV::Assign(rv))),
                                    ValV::Nothing,
                                ),
                                _ => EOut::Fail(not_structure_text(p.static_ty@)),
                            }
                        },
                        _ => EOut::Fail(not_variable_text() + val_debug(sv) + "'"@),
                    },
                    o => o,
                },
                o => o,
            },
            None => EOut::Done(id, l, Seq::empty(), ValV::Nothing),
        },
        _ => EOut::Done(id, l, Seq::empty(), ValV::Nothing),
    }
        }),
{
    reveal(ev);
    reveal(evs);
    reveal(eb_value);
    reveal(eflat);
    reveal(es);
    reveal(eglobal_assign);
    reveal(ecomplex_assign);
    reveal(eblock);
    reveal(eelse_block);
    reveal(eelse_value);
}

proof fn lemma_evs_stays(c: EmCtx, id: u64, l: Seq<Seq<char>>, s: Seq<Exp>, k: int, m: int)
    requires
        0 <= k <= m <= s.len(),
        !(evs(c, id, l, s, k) is Done),
    ensures
        evs(c, id, l, s, m) == evs(c, id, l, s, k),
    decreases m - k,
{
    lemma_unfold_evs(c, id, l, s, m);
    if m > k {
        lemma_evs_stays(c, id, l, s, k, m - 1);
    }
}

proof fn lemma_eflat_stays(c: EmCtx, id: u64, l: Seq<Seq<char>>, s: Seq<Exp>, k: int, m: int)
    requires
        0 <= k <= m <= s.len(),
        !(eflat(c, id, l, s, k) is Done),
    ensures
        eflat(c, id, l, s, m) == eflat(c, id, l, s, k),
    decreases m - k,
{
    lemma_unfold_eflat(c, id, l, s, m);
    if m > k {
        lemma_eflat_stays(c, id, l, s, k, m - 1);
    }
}

fn copy_type(t: &hir::Type) -> (r: hir::Type)
    ensures
        hir::type_v(r) == hir::type_v(*t),
{
    match t {
        hir::Type::Nothing => hir::Type::Nothing,
        hir::Type::Int64 => hir::Type::Int64,
        hir::Type::Bool => hir::Type::Bool,
        hir::Type::Str => hir::Type::Str,
        hir::Type::Struct(n) => hir::Type::Struct(n.clone()),
    }
}

fn copy_val(v: &hir::Val) -> (r: hir::Val)
    ensures
        val_v(r) == val_v(*v),
{
    match v {
        hir::Val::Nothing => hir::Val::Nothing,
        hir::Val::Var(n) => hir::Val::Var(n.clone()),
        hir::Val::Const(t, k) => hir::Val::Const(copy_type(t), *k),
        hir::Val::Str(n) => hir::Val::Str(n.clone()),
    }
}

fn copy_vals(vs: &Vec<hir::Val>) -> (r: Vec<hir::Val>)
    ensures
        vals_v(r@) == vals_v(vs@),
{
    let mut r: Vec<hir::Val> = Vec::new();
    let mut i: usize = 0;
    while i < vs.len()
        invariant
            i <= vs@.len(),
            vals_v(r@) == vals_v(vs@.take(i as int)),
        decreases vs.len() - i,
    {
        r.push(copy_val(&vs[i]));
        assert(vals_v(vs@.take(i + 1)) =~= vals_v(vs@.take(i as int)).push(val_v(vs@[i as int])));
        assert(vals_v(r@) =~= vals_v(vs@.take(i as int)).push(val_v(vs@[i as int])));
        i = i + 1;
    }
    assert(vs@.take(vs@.len() as int) =~= vs@);
    r
}

fn copy_callable(c: &hir::Callable) -> (r: hir::Callable)
    ensures
        hir::callable_v(r) == hir::callable_v(*c),
{
    match c {
        hir::Callable::Call(f, n, args) => hir::Callable::Call(f.clone(), *n, copy_vals(args)),
        hir::Callable::Bin(op, a, b) => hir::Callable::Bin(*op, copy_val(a), copy_val(b)),
        hir::Callable::Unary(op, a) => hir::Callable::Unary(*op, copy_val(a)),
        hir::Callable::Assign(a) => hir::Callable::Assign(copy_val(a)),
        hir::Callable::Alloc(n) => hir::Callable::Alloc(n.clone()),
        hir::Callable::IsType(a, t) => hir::Callable::IsType(copy_val(a), copy_type(t)),
        hir::Callable::Access(a, n, f) => hir::Callable::Access(copy_val(a), n.clone(), f.clone()),
    }
}

fn copy_lvalue(l: &hir::LValue) -> (r: hir::LValue)
    ensures
        hir::lvalue_v(r) == hir::lvalue_v(*l),
{
    match l {
        hir::LValue::Var(n) => hir::LValue::Var(n.clone()),
        hir::LValue::Access(a, n, f) => hir::LValue::Access(copy_val(a), n.clone(), f.clone()),
    }
}

fn copy_stmt(st: &hir::Statement) -> (r: hir::Statement)
    ensures
        stmt_v(r) == stmt_v(*st),
    decreases *st, 1int,
{
    match st {
        hir::Statement::Call(l, c) => hir::Statement::Call(copy_lvalue(l), copy_callable(c)),
        hir::Statement::Return(v) => hir::Statement::Return(copy_val(v)),
        hir::Statement::If(v, b1, b2) => {
            proof {
                assert(decreases_to!(*st => b1.stmts));
                assert(decreases_to!(*st => b2.stmts));
            }
            let c1 = clone_stmts(&b1.stmts);
            let c2 = clone_stmts(&b2.stmts);
            hir::Statement::If(copy_val(v), hir::Block::new(c1), hir::Block::new(c2))
        },
        hir::Statement::While(v, b) => {
            proof {
                assert(decreases_to!(*st => b.stmts));
            }
            let c1 = clone_stmts(&b.stmts);
            hir::Statement::While(copy_val(v), hir::Block::new(c1))
        },
    }
}

/// A copy of a list of statements.
fn clone_stmts(s: &Vec<hir::Statement>) -> (r: Vec<hir::Statement>)
    ensures
        sv(r@) == sv(s@),
    decreases s, 0int,
{
    let mut r: Vec<hir::Statement> = Vec::new();
    let mut i: usize = 0;
    while i < s.len()
        invariant
            i <= s@.len(),
            r@.len() == i,
            forall|j: int| 0 <= j < i ==> #[trigger] stmt_v(r@[j]) == stmt_v(s@[j]),
        decreases s.len() - i,
    {
        proof {
            assert(decreases_to!(s => s@));
            assert(decreases_to!(s@ => s@[i as int]));
        }
        r.push(copy_stmt(&s[i]));
        i = i + 1;
    }
    proof {
        lemma_sv(r@);
        lemma_sv(s@);
        assert(r@.map_values(|x: hir::Statement| stmt_v(x)) =~= s@.map_values(|x: hir::Statement| stmt_v(x)));
    }
    r
}

fn hbin_exec(op: BinOp) -> (r: hir::BinOp)
    ensures
        r == hbin(op),
{
    match op {
        BinOp::Or => hir::BinOp::Or,
        BinOp::And => hir::BinOp::And,
        BinOp::Equ => hir::BinOp::Equ,
        BinOp::Neq => hir::BinOp::Neq,
        BinOp::Lt => hir::BinOp::Lt,
        BinOp::Leq => hir::BinOp::Leq,
        BinOp::Gt => hir::BinOp::Gt,
        BinOp::Geq => hir::BinOp::Geq,
        BinOp::Plus => hir::BinOp::Add,
        BinOp::Minus => hir::BinOp::Sub,
        BinOp::Times => hir::BinOp::Mul,
        BinOp::Mod => hir::BinOp::Div,
        BinOp::Pow => hir::BinOp::Mul,
    }
}

fn hun_exec(op: UnaryOp) -> (r: hir::UnaryOp)
    ensures
        r == hun(op),
{
    match op {
        UnaryOp::Neg => hir::UnaryOp::Neg,
        UnaryOp::Not => hir::UnaryOp::Not,
    }
}

fn old_name_exec(olds: &Vec<(String, String)>, n: &String) -> (r: Option<String>)
    requires
        forall|i: int, j: int|
            0 <= i < olds@.len() && 0 <= j < olds@.len() && i != j ==> #[trigger] olds@[i].0@ != #[trigger] olds@[j].0@,
    ensures
        match renamed(pairs_v(olds@), n@) {
            None => r is None,
            Some(x) => r is Some && r->Some_0@ == x,
        },
{
    let ghost c = pairs_v(olds@);
    let mut i: usize = 0;
    while i < olds.len()
        invariant
            i <= olds@.len(),
            c == pairs_v(olds@),
            forall|a: int, b: int|
                0 <= a < olds@.len() && 0 <= b < olds@.len() && a != b ==> #[trigger] olds@[a].0@ != #[trigger] olds@[b].0@,
            forall|j: int| 0 <= j < i ==> olds@[j].0@ != n@,
        decreases olds.len() - i,
    {
        if str_eq(olds[i].0.as_str(), n.as_str()) {
            proof {
                assert(c[i as int].0 == n@);
                let q = choose|q: int| 0 <= q < c.len() && #[trigger] c[q].0 == n@;
                assert(olds@[q].0@ == n@);
                assert(olds@[i as int].0@ == n@);
                if q != i {
                    assert(olds@[q].0@ != olds@[i as int].0@);
                }
                assert(q == i);
                assert(renamed(c, n@) == Some(olds@[i as int].1@));
            }
            return Some(olds[i].1.clone());
        }
        i = i + 1;
    }
    proof {
        if exists|q: int| 0 <= q < c.len() && #[trigger] c[q].0 == n@ {
            let q = choose|q: int| 0 <= q < c.len() && #[trigger] c[q].0 == n@;
            assert(olds@[q].0@ == n@);
        }
    }
    None
}

impl Emitter {
    #[verifier::rlimit(80)]
    #[verifier::spinoff_prover]
    fn emit_value(&mut self, e: &Exp) -> (r: Result<(Vec<hir::Statement>, hir::Val), String>)
        requires
            old(self).wf(),
        ensures
            final(self).wf(),
            final(self).keeps(old(self)),
            value_emitted(ev(old(self).ctx(), old(self).id(), old(self).locals(), *e), r, *final(self)),
        decreases *e, 1int,
    {
        proof {
            lemma_unfold_ev(self.ctx(), self.id(), self.locals(), *e);
        }
        let ghost c = self.ctx();
        proof {
            assert(decreases_to!(*e => e.val));
        }
        match &*e.val {
            ExpVal::BinOp(op, a, b) => {
                let (sa, va) = match self.emit_value(a) {
                    Ok(x) => x,
                    Err(m) => return Err(m),
                };
                let (sb, vb) = match self.emit_value(b) {
                    Ok(x) => x,
                    Err(m) => return Err(m),
                };
                let mut stmts = sa;
                let mut sb = sb;
                let ghost s1 = stmts@;
                let ghost s2 = sb@;
                stmts.append(&mut sb);
                let out = self.mk_intermediate_var();
                let ghost vav = val_v(va);
                let ghost vbv = val_v(vb);
                let callable = match op {
                    BinOp::Pow => {
                        let args = vec![va, vb];
                        proof {
                            reveal_strlit("pow");
                            assert(vals_v(args@) =~= seq![vav, vbv]);
                        }
                        hir::Callable::Call(owned("pow"), true, args)
                    },
                    _ => hir::Callable::Bin(hbin_exec(*op), va, vb),
                };
                assert(hir::callable_v(callable) == bin_callable(*op, vav, vbv));
                let ghost s3 = stmts@;
                stmts.push(set_stmt(out.clone(), callable));
                proof {
                    lemma_sv_add(s1, s2);
                    lemma_sv_push(s3, stmts@.last());
                    assert(stmts@ == s3.push(stmts@.last()));
                }
                Ok((stmts, hir::Val::Var(out)))
            },
            ExpVal::Block(b) => self.emit_block_value(b),
            ExpVal::UnaryOp(op, x) => {
                let (mut stmts, v) = match self.emit_value(x) {
                    Ok(t) => t,
                    Err(m) => return Err(m),
                };
                let out = self.mk_intermediate_var();
                let ghost s0 = stmts@;
                stmts.push(set_stmt(out.clone(), hir::Callable::Unary(hun_exec(*op), v)));
                proof {
                    lemma_sv_push(s0, stmts@.last());
                }
                Ok((stmts, hir::Val::Var(out)))
            },
            ExpVal::Int(k) => Ok((Vec::new(), hir::Val::Const(hir::Type::Int64, *k as u64))),
            ExpVal::Bool(b) => Ok((Vec::new(), hir::Val::Const(hir::Type::Bool, if *b { 1u64 } else { 0u64 }))),
            ExpVal::Str(t) => Ok((Vec::new(), hir::Val::Str(t.clone()))),
            ExpVal::LValue(lv) => {
                match &lv.in_exp {
                    None => {
                        if lv.scope == Scope::Local {
                            Ok((Vec::new(), hir::Val::Var(lv.name.clone())))
                        } else {
                            match old_name_exec(&self.old_global_vars, &lv.name) {
                                None => {
                                    proof {
                                        reveal_strlit("[T-AST] Unexpected error, lvalue of type '");
                                        reveal_strlit("' is scoped globally but no global variables of name '");
                                        reveal_strlit("' exist!");
                                        assert(old_name(c, lv.name@) == renamed(pairs_v(self.old_global_vars@), lv.name@));
                                    }
                                    let t = e.static_ty.to_string();
                                    let mut m = cat3("[T-AST] Unexpected error, lvalue of type '", t.as_str(), "' is scoped globally but no global variables of name '");
                                    m.append(lv.name.as_str());
                                    m.append("' exist!");
                                    Err(m)
                                },
                                Some(new_name) => {
                                    proof {
                                        assert(old_name(c, lv.name@) == renamed(pairs_v(self.old_global_vars@), lv.name@));
                                    }
                                    Ok((Vec::new(), hir::Val::Var(new_name)))
                                },
                            }
                        }
                    },
                    Some(p) => {
                        match &p.static_ty {
                            crate::parser::ast::StaticType::Struct(sn) => {
                                let (mut stmts, sval) = match self.emit_value(p) {
                                    Ok(t) => t,
                                    Err(m) => return Err(m),
                                };
                                let out = self.mk_intermediate_var();
                                let ghost s0 = stmts@;
                                stmts.push(set_stmt(out.clone(), hir::Callable::Access(sval, sn.clone(), lv.name.clone())));
                                proof {
                                    lemma_sv_push(s0, stmts@.last());
                                }
                                Ok((stmts, hir::Val::Var(out)))
                            },
                            _ => {
                                proof {
                                    reveal_strlit("[T-AST] Unexpected error, lvalue of type '");
                                    reveal_strlit("' has no field '");
                                    reveal_strlit("'!");
                                }
                                let t = p.static_ty.to_string();
                                let mut m = cat3("[T-AST] Unexpected error, lvalue of type '", t.as_str(), "' has no field '");
                                m.append(lv.name.as_str());
                                m.append("'!");
                                Err(m)
                            },
                        }
                    },
                }
            },
            ExpVal::Mul(k, v) => {
                let out = self.mk_intermediate_var();
                let st = set_stmt(out.clone(), hir::Callable::Bin(hir::BinOp::Mul, hir::Val::Const(hir::Type::Int64, *k as u64), hir::Val::Var(v.clone())));
                let mut stmts: Vec<hir::Statement> = Vec::new();
                stmts.push(st);
                proof {
                    lemma_sv_push(Seq::empty(), stmts@.last());
                    assert(stmts@ =~= Seq::<hir::Statement>::empty().push(stmts@.last()));
                    assert(seq![stmt_v(stmts@.last())] =~= Seq::<StatementV>::empty().push(stmt_v(stmts@.last())));
                }
                Ok((stmts, hir::Val::Var(out)))
            },
            ExpVal::LMul(k, b) => {
                let (mut stmts, bv) = match self.emit_block_value(b) {
                    Ok(t) => t,
                    Err(m) => return Err(m),
                };
                let out = self.mk_intermediate_var();
                let ghost s0 = stmts@;
                stmts.push(set_stmt(out.clone(), hir::Callable::Bin(hir::BinOp::Mul, hir::Val::Const(hir::Type::Int64, *k as u64), bv)));
                proof {
                    lemma_sv_push(s0, stmts@.last());
                }
                Ok((stmts, hir::Val::Var(out)))
            },
            ExpVal::RMul(x, v) => {
                let out = self.mk_intermediate_var();
                let (mut stmts, xv) = match self.emit_value(x) {
                    Ok(t) => t,
                    Err(m) => return Err(m),
                };
                let ghost s0 = stmts@;
                stmts.push(set_stmt(out.clone(), hir::Callable::Bin(hir::BinOp::Mul, xv, hir::Val::Var(v.clone()))));
                proof {
                    lemma_sv_push(s0, stmts@.last());
                }
                Ok((stmts, hir::Val::Var(out)))
            },
            ExpVal::Return(m) => match m {
                None => Ok((Vec::new(), hir::Val::Nothing)),
                Some(x) => self.emit_value(x),
            },
            ExpVal::Call(name, args) => {
                proof {
                    assert(decreases_to!(*e => args));
                }
                let out = self.mk_intermediate_var();
                let (mut stmts, vals) = match self.emit_values(args) {
                    Ok(t) => t,
                    Err(m) => return Err(m),
                };
                let ghost s0 = stmts@;
                let callable = if contains_name(&self.structure_names, name.as_str()) {
                    hir::Callable::Alloc(name.clone())
                } else {
                    hir::Callable::Call(name.clone(), false, vals)
                };
                stmts.push(set_stmt(out.clone(), callable));
                proof {
                    lemma_sv_push(s0, stmts@.last());
                }
                Ok((stmts, hir::Val::Var(out)))
            },
            ExpVal::If(cond, then, u) => {
                let out = self.mk_intermediate_var();
                let (mut stmts, cv) = match self.emit_value(cond) {
                    Ok(t) => t,
                    Err(m) => return Err(m),
                };
                let (mut ts, tv) = match self.emit_block_value(then) {
                    Ok(t) => t,
                    Err(m) => return Err(m),
                };
                let (mut us, uv) = match self.emit_else_value(u) {
                    Ok(t) => t,
                    Err(m) => return Err(m),
                };
                let ghost ts0 = ts@;
                let ghost us0 = us@;
                ts.push(set_stmt(out.clone(), hir::Callable::Assign(tv)));
                us.push(set_stmt(out.clone(), hir::Callable::Assign(uv)));
                let ghost s0 = stmts@;
                let ghost tsv = ts@;
                let ghost usv = us@;
                stmts.push(hir::Statement::If(cv, hir::Block::new(ts), hir::Block::new(us)));
                proof {
                    lemma_sv_push(ts0, tsv.last());
                    lemma_sv_push(us0, usv.last());
                    lemma_sv_push(s0, stmts@.last());
                }
                Ok((stmts, hir::Val::Var(out)))
            },
            _ => Ok((Vec::new(), hir::Val::Var(placeholder(e)))),
        }
    }

    fn emit_values(&mut self, exprs: &Vec<Exp>) -> (r: Result<(Vec<hir::Statement>, Vec<hir::Val>), String>)
        requires
            old(self).wf(),
        ensures
            final(self).wf(),
            final(self).keeps(old(self)),
            values_emitted(evs(old(self).ctx(), old(self).id(), old(self).locals(), exprs@, exprs@.len() as int), r, *final(self)),
        decreases exprs, 0int,
    {
        proof {
            lemma_unfold_evs(self.ctx(), self.id(), self.locals(), exprs@, 0);
        }
        let ghost c = self.ctx();
        let ghost id0 = self.id();
        let ghost l0 = self.locals();
        let ghost s = exprs@;
        let mut vals: Vec<hir::Val> = Vec::new();
        let mut stmts: Vec<hir::Statement> = Vec::new();
        let mut i: usize = 0;
        while i < exprs.len()
            invariant
                i <= exprs@.len(),
                s == exprs@,
                self.wf(),
                self.keeps(old(self)),
                c == old(self).ctx(),
                id0 == old(self).id(),
                l0 == old(self).locals(),
                match evs(c, id0, l0, s, i as int) {
                    EVals::Done(id, l, ss, vs) => self.id() == id && self.locals() == l && sv(stmts@) == ss && vals_v(vals@) == vs,
                    EVals::Fail(_) => false,
                },
            decreases exprs.len() - i,
        {
            proof {
                assert(decreases_to!(exprs => exprs@));
                assert(decreases_to!(exprs@ => exprs@[i as int]));
            }
            proof {
                lemma_unfold_evs(c, id0, l0, s, i + 1);
            }
            let ghost pre = evs(c, id0, l0, s, i as int);
            let ghost post = evs(c, id0, l0, s, i + 1);
            let res = self.emit_value(&exprs[i]);
            proof {
                if !(pre is Done) {
                    lemma_evs_stays(c, id0, l0, s, i as int, s.len() as int);
                }
            }
            let (es_, v) = match res {
                Ok(t) => t,
                Err(m) => {
                    proof {
                        if pre is Done && !(post is Done) {
                            lemma_evs_stays(c, id0, l0, s, i + 1, s.len() as int);
                        }
                    }
                    return Err(m);
                },
            };
            let mut es_ = es_;
            let ghost s0 = stmts@;
            let ghost s1 = es_@;
            let ghost v0 = vals@;
            stmts.append(&mut es_);
            vals.push(v);
            proof {
                lemma_sv_add(s0, s1);
                assert(vals_v(vals@) =~= vals_v(v0).push(val_v(v)));
            }
            i = i + 1;
        }
        Ok((stmts, vals))
    }
}

impl Emitter {
    fn emit_block_value(&mut self, b: &Block) -> (r: Result<(Vec<hir::Statement>, hir::Val), String>)
        requires
            old(self).wf(),
        ensures
            final(self).wf(),
            final(self).keeps(old(self)),
            value_emitted(eb_value(old(self).ctx(), old(self).id(), old(self).locals(), *b), r, *final(self)),
        decreases *b, 1int,
    {
        proof {
            lemma_unfold_eb_value(self.ctx(), self.id(), self.locals(), *b);
        }
        proof {
            assert(decreases_to!(*b => b.val));
        }
        let n = b.val.len();
        if n == 0 {
            return Ok((Vec::new(), hir::Val::Nothing));
        }
        let mut stmts = match self.emit_flattened_statements(&b.val, n - 1) {
            Ok(t) => t,
            Err(m) => return Err(m),
        };
        proof {
            assert(decreases_to!(b.val => b.val@));
            assert(decreases_to!(b.val@ => b.val@[n - 1]));
        }
        let (mut last_stmts, last_val) = match self.emit_value(&b.val[n - 1]) {
            Ok(t) => t,
            Err(m) => return Err(m),
        };
        let ghost s0 = stmts@;
        let ghost s1 = last_stmts@;
        stmts.append(&mut last_stmts);
        proof {
            lemma_sv_add(s0, s1);
        }
        Ok((stmts, last_val))
    }

    /// Translates the first `k` expressions as statements.
    fn emit_flattened_statements(&mut self, exps: &Vec<Exp>, k: usize) -> (r: Result<Vec<hir::Statement>, String>)
        requires
            old(self).wf(),
            k <= exps@.len(),
        ensures
            final(self).wf(),
            final(self).keeps(old(self)),
            stmts_emitted(eflat(old(self).ctx(), old(self).id(), old(self).locals(), exps@, k as int), r, *final(self)),
        decreases exps, 0int,
    {
        proof {
            lemma_unfold_eflat(self.ctx(), self.id(), self.locals(), exps@, 0);
        }
        let ghost c = self.ctx();
        let ghost id0 = self.id();
        let ghost l0 = self.locals();
        let ghost s = exps@;
        let mut stmts: Vec<hir::Statement> = Vec::new();
        let mut i: usize = 0;
        while i < k
            invariant
                i <= k <= exps@.len(),
                s == exps@,
                self.wf(),
                self.keeps(old(self)),
                c == old(self).ctx(),
                id0 == old(self).id(),
                l0 == old(self).locals(),
                match eflat(c, id0, l0, s, i as int) {
                    EOut::Done(id, l, ss, _) => self.id() == id && self.locals() == l && sv(stmts@) == ss,
                    EOut::Fail(_) => false,
                },
            decreases k - i,
        {
            proof {
                assert(decreases_to!(exps => exps@));
                assert(decreases_to!(exps@ => exps@[i as int]));
            }
            proof {
                lemma_unfold_eflat(c, id0, l0, s, i + 1);
            }
            let ghost pre = eflat(c, id0, l0, s, i as int);
            let ghost post = eflat(c, id0, l0, s, i + 1);
            let res = self.emit_statements(&exps[i]);
            proof {
                if !(pre is Done) {
                    lemma_eflat_stays(c, id0, l0, s, i as int, k as int);
                }
            }
            let mut more = match res {
                Ok(t) => t,
                Err(m) => {
                    proof {
                        if pre is Done && !(post is Done) {
                            lemma_eflat_stays(c, id0, l0, s, i + 1, k as int);
                        }
                    }
                    return Err(m);
                },
            };
            let ghost s0 = stmts@;
            let ghost s1 = more@;
            stmts.append(&mut more);
            proof {
                lemma_sv_add(s0, s1);
            }
            i = i + 1;
        }
        Ok(stmts)
    }

    #[verifier::rlimit(80)]
    #[verifier::spinoff_prover]
    fn emit_statements(&mut self, e: &Exp) -> (r: Result<Vec<hir::Statement>, String>)
        requires
            old(self).wf(),
        ensures
            final(self).wf(),
            final(self).keeps(old(self)),
            stmts_emitted(es(old(self).ctx(), old(self).id(), old(self).locals(), *e), r, *final(self)),
        decreases *e, 1int,
    {
        proof {
            lemma_unfold_es(self.ctx(), self.id(), self.locals(), *e);
        }
        proof {
            assert(decreases_to!(*e => e.val));
        }
        match &*e.val {
            ExpVal::Return(m) => match m {
                None => {
                    let mut v: Vec<hir::Statement> = Vec::new();
                    v.push(hir::Statement::Return(hir::Val::Nothing));
                    proof {
                        lemma_sv_push(Seq::empty(), v@.last());
                        assert(v@ =~= Seq::<hir::Statement>::empty().push(v@.last()));
                        assert(seq![StatementV::Return(ValV::Nothing)] =~= Seq::<StatementV>::empty().push(stmt_v(v@.last())));
                    }
                    Ok(v)
                },
                Some(x) => {
                    let (mut stmts, v) = match self.emit_value(x) {
                        Ok(t) => t,
                        Err(m) => return Err(m),
                    };
                    let ghost s0 = stmts@;
                    stmts.push(hir::Statement::Return(v));
                    proof {
                        lemma_sv_push(s0, stmts@.last());
                    }
                    Ok(stmts)
                },
            },
            ExpVal::If(cond, then, u) => {
                let (mut stmts, cv) = match self.emit_value(cond) {
                    Ok(t) => t,
                    Err(m) => return Err(m),
                };
                let tb = match self.emit_block(then, false) {
                    Ok(t) => t,
                    Err(m) => return Err(m),
                };
                let ub = match self.emit_else_block(u) {
                    Ok(t) => t,
                    Err(m) => return Err(m),
                };
                let ghost s0 = stmts@;
                stmts.push(hir::Statement::If(cv, tb, ub));
                proof {
                    lemma_sv_push(s0, stmts@.last());
                }
                Ok(stmts)
            },
            ExpVal::For(ci, range, body) => {
                proof {
                    assert(decreases_to!(*e => range.start));
                    assert(decreases_to!(*e => range.end));
                }
                let (mut stmts, v1) = match self.emit_value(&range.start) {
                    Ok(t) => t,
                    Err(m) => return Err(m),
                };
                let (mut s2, v2) = match self.emit_value(&range.end) {
                    Ok(t) => t,
                    Err(m) => return Err(m),
                };
                let ghost a0 = stmts@;
                let ghost a1 = s2@;
                stmts.append(&mut s2);
                let ghost a2 = stmts@;
                stmts.push(set_stmt(ci.name.clone(), hir::Callable::Assign(v1)));
                let ghost a3 = stmts@;
                let bv = self.mk_intermediate_var();
                let inc = set_stmt(ci.name.clone(), hir::Callable::Bin(hir::BinOp::Add, hir::Val::Var(ci.name.clone()), hir::Val::Const(hir::Type::Int64, 1)));
                let upd = set_stmt(bv.clone(), hir::Callable::Bin(hir::BinOp::Leq, hir::Val::Var(ci.name.clone()), v2));
                let mut body_block = match self.emit_block(body, false) {
                    Ok(t) => t,
                    Err(m) => return Err(m),
                };
                let ghost b0 = body_block.stmts@;
                body_block.push(inc);
                let ghost b1 = body_block.stmts@;
                body_block.push(upd);
                let ghost b2 = body_block.stmts@;
                stmts.push(hir::Statement::While(hir::Val::Var(bv), body_block));
                proof {
                    lemma_sv_add(a0, a1);
                    lemma_sv_push(a2, a3.last());
                    lemma_sv_push(b0, b1.last());
                    lemma_sv_push(b1, b2.last());
                    lemma_sv_push(a3, stmts@.last());
                }
                Ok(stmts)
            },
            ExpVal::While(cond, body) => {
                let (sc, vc) = match self.emit_value(cond) {
                    Ok(t) => t,
                    Err(m) => return Err(m),
                };
                let mut wb = match self.emit_block(body, false) {
                    Ok(t) => t,
                    Err(m) => return Err(m),
                };
                let ghost w0 = wb.stmts@;
                let copy = clone_stmts(&sc);
                let ghost c0 = copy@;
                wb.extend(copy);
                let ghost w1 = wb.stmts@;
                let mut stmts = sc;
                let ghost s0 = stmts@;
                stmts.push(hir::Statement::While(vc, wb));
                proof {
                    lemma_sv_add(w0, c0);
                    assert(w1 == w0 + c0);
                    assert(sv(w1) == sv(w0) + sv(s0));
                    lemma_sv_push(s0, stmts@.last());
                }
                Ok(stmts)
            },
            ExpVal::Call(f, args) => {
                proof {
                    assert(decreases_to!(*e => args));
                }
                let (mut stmts, vals) = match self.emit_values(args) {
                    Ok(t) => t,
                    Err(m) => return Err(m),
                };
                let out = self.mk_intermediate_var();
                let ghost s0 = stmts@;
                stmts.push(set_stmt(out, hir::Callable::Call(f.clone(), false, vals)));
                proof {
                    lemma_sv_push(s0, stmts@.last());
                }
                Ok(stmts)
            },
            ExpVal::Assign(lv, x) => match &lv.in_exp {
                None => self.emit_global_assign(&lv.name, x),
                Some(_) => self.emit_complex_assign(e),
            },
            ExpVal::Block(b) => match self.emit_block(b, false) {
                Ok(t) => Ok(t.stmts),
                Err(m) => Err(m),
            },
            _ => Ok(Vec::new()),
        }
    }

    #[verifier::rlimit(80)]
    #[verifier::spinoff_prover]
    fn emit_global_assign(&mut self, var_name: &String, rhs_expr: &Exp) -> (r: Result<Vec<hir::Statement>, String>)
        requires
            old(self).wf(),
        ensures
            final(self).wf(),
            final(self).keeps(old(self)),
            stmts_emitted(eglobal_assign(old(self).ctx(), old(self).id(), old(self).locals(), var_name@, *rhs_expr), r, *final(self)),
        decreases *rhs_expr, 2int,
    {
        proof {
            lemma_unfold_eglobal_assign(self.ctx(), self.id(), self.locals(), var_name@, *rhs_expr);
        }
        if !contains_name(&self.current_params, var_name.as_str()) {
            add_name(&mut self.current_local_vars, var_name);
        }
        let (mut stmts, v) = match self.emit_value(rhs_expr) {
            Ok(t) => t,
            Err(m) => return Err(m),
        };
        let ghost s0 = stmts@;
        stmts.push(set_stmt(var_name.clone(), hir::Callable::Assign(v)));
        proof {
            lemma_sv_push(s0, stmts@.last());
        }
        Ok(stmts)
    }

    /// Translates the assignment `e` of a field.
    #[verifier::rlimit(80)]
    #[verifier::spinoff_prover]
    fn emit_complex_assign(&mut self, e: &Exp) -> (r: Result<Vec<hir::Statement>, String>)
        requires
            old(self).wf(),
        ensures
            final(self).wf(),
            final(self).keeps(old(self)),
            stmts_emitted(ecomplex_assign(old(self).ctx(), old(self).id(), old(self).locals(), *e), r, *final(self)),
        decreases *e, 0int,
    {
        proof {
            lemma_unfold_ecomplex_assign(self.ctx(), self.id(), self.locals(), *e);
        }
        let ghost c = self.ctx();
        proof {
            assert(decreases_to!(*e => e.val));
        }
        match &*e.val {
            ExpVal::Assign(lv, rhs) => match &lv.in_exp {
                Some(p) => {
                    let (mut stmts, struct_val) = match self.emit_value(p) {
                        Ok(t) => t,
                        Err(m) => return Err(m),
                    };
                    let (mut rhs_stmts, rhs_val) = match self.emit_value(rhs) {
                        Ok(t) => t,
                        Err(m) => return Err(m),
                    };
                    let ghost s0 = stmts@;
                    let ghost s1 = rhs_stmts@;
                    stmts.append(&mut rhs_stmts);
                    match &struct_val {
                        hir::Val::Var(n) => {
                            let bound = contains_name(&self.current_params, n.as_str()) || contains_name(&self.current_local_vars, n.as_str())
                                || old_name_exec(&self.old_global_vars, n).is_some();
                            proof {
                                assert(old_name(c, n@) == renamed(pairs_v(self.old_global_vars@), n@));
                            }
                            if !bound {
                                proof {
                                    reveal_strlit("[T-AST] Unbound structure variable, '");
                                    reveal_strlit("' is not bound (params: ");
                                }
                                let mut m = cat3("[T-AST] Unbound structure variable, '", n.as_str(), "' is not bound (params: ");
                                let d1 = names_debug_text(&self.current_params);
                                let d2 = names_debug_text(&self.current_local_vars);
                                let d3 = names_debug_text(&self.global_vars);
                                proof {
                                    reveal_strlit(", locals: ");
                                    reveal_strlit(", globals: ");
                                    reveal_strlit(")!");
                                }
                                m.append(d1.as_str());
                                m.append(", locals: ");
                                m.append(d2.as_str());
                                m.append(", globals: ");
                                m.append(d3.as_str());
                                m.append(")!");
                                return Err(m);
                            }
                        },
                        _ => {
                            proof {
                                reveal_strlit("[T-AST] Invalid assignment location, left hand is not a variable but a '");
                            }
                            let mut m = owned("[T-AST] Invalid assignment location, left hand is not a variable but a '");
                            let d = val_debug_text(&struct_val);
                            m.append(d.as_str());
                            proof {
                                reveal_strlit("'");
                            }
                            m.append("'");
                            return Err(m);
                        },
                    }
                    match &p.static_ty {
                        crate::parser::ast::StaticType::Struct(sn) => {
                            let ghost s2 = stmts@;
                            stmts.push(hir::Statement::Call(hir::LValue::Access(struct_val, sn.clone(), lv.name.clone()), hir::Callable::Assign(rhs_val)));
                            proof {
                                lemma_sv_add(s0, s1);
                                lemma_sv_push(s2, stmts@.last());
                            }
                            Ok(stmts)
                        },
                        _ => {
                            proof {
                                reveal_strlit("[T-AST] Invalid assignment location, left hand is not a structure but a '");
                                reveal_strlit("'!");
                            }
                            let t = p.static_ty.to_string();
                            Err(cat3("[T-AST] Invalid assignment location, left hand is not a structure but a '", t.as_str(), "'!"))
                        },
                    }
                },
                None => Ok(Vec::new()),
            },
            _ => Ok(Vec::new()),
        }
    }

    fn emit_block(&mut self, b: &Block, allow_implicit_returns: bool) -> (r: Result<hir::Block, String>)
        requires
            old(self).wf(),
        ensures
            final(self).wf(),
            final(self).keeps(old(self)),
            stmts_emitted(
                eblock(old(self).ctx(), old(self).id(), old(self).locals(), *b, allow_implicit_returns),
                block_result(r),
                *final(self),
            ),
        decreases *b, 2int,
    {
        proof {
            lemma_unfold_eblock(self.ctx(), self.id(), self.locals(), *b, allow_implicit_returns);
        }
        proof {
            assert(decreases_to!(*b => b.val));
        }
        if allow_implicit_returns && !b.trailing_semicolon {
            let (mut stmts, v) = match self.emit_block_value(b) {
                Ok(t) => t,
                Err(m) => return Err(m),
            };
            let ghost s0 = stmts@;
            stmts.push(hir::Statement::Return(v));
            proof {
                lemma_sv_push(s0, stmts@.last());
            }
            Ok(hir::Block::new(stmts))
        } else {
            match self.emit_flattened_statements(&b.val, b.val.len()) {
                Ok(stmts) => Ok(hir::Block::new(stmts)),
                Err(m) => Err(m),
            }
        }
    }

    fn emit_else_block(&mut self, u: &Else) -> (r: Result<hir::Block, String>)
        requires
            old(self).wf(),
        ensures
            final(self).wf(),
            final(self).keeps(old(self)),
            stmts_emitted(
                eelse_block(old(self).ctx(), old(self).id(), old(self).locals(), *u),
                block_result(r),
                *final(self),
            ),
        decreases *u, 1int,
    {
        proof {
            lemma_unfold_eelse_block(self.ctx(), self.id(), self.locals(), *u);
        }
        proof {
            assert(decreases_to!(*u => u.val));
        }
        match &*u.val {
            ElseVal::End => Ok(hir::Block::new(Vec::new())),
            ElseVal::Else(b) => self.emit_block(b, false),
            ElseVal::ElseIf(cond, t, rest) => {
                let (mut stmts, cv) = match self.emit_value(cond) {
                    Ok(x) => x,
                    Err(m) => return Err(m),
                };
                let tb = match self.emit_block(t, false) {
                    Ok(x) => x,
                    Err(m) => return Err(m),
                };
                let ub = match self.emit_else_block(rest) {
                    Ok(x) => x,
                    Err(m) => return Err(m),
                };
                let ghost s0 = stmts@;
                stmts.push(hir::Statement::If(cv, tb, ub));
                proof {
                    lemma_sv_push(s0, stmts@.last());
                }
                Ok(hir::Block::new(stmts))
            },
        }
    }

    fn emit_else_value(&mut self, u: &Else) -> (r: Result<(Vec<hir::Statement>, hir::Val), String>)
        requires
            old(self).wf(),
        ensures
            final(self).wf(),
            final(self).keeps(old(self)),
            value_emitted(eelse_value(old(self).ctx(), old(self).id(), old(self).locals(), *u), r, *final(self)),
        decreases *u, 1int,
    {
        proof {
            lemma_unfold_eelse_value(self.ctx(), self.id(), self.locals(), *u);
        }
        proof {
            assert(decreases_to!(*u => u.val));
        }
        match &*u.val {
            ElseVal::End => Ok((Vec::new(), hir::Val::Nothing)),
            ElseVal::Else(b) => self.emit_block_value(b),
            ElseVal::ElseIf(cond, t, rest) => {
                let out = self.mk_intermediate_var();
                let (mut stmts, cv) = match self.emit_value(cond) {
                    Ok(x) => x,
                    Err(m) => return Err(m),
                };
                let (mut ts, tv) = match self.emit_block_value(t) {
                    Ok(x) => x,
                    Err(m) => return Err(m),
                };
                let (mut us, uv) = match self.emit_else_value(rest) {
                    Ok(x) => x,
                    Err(m) => return Err(m),
                };
                let ghost ts0 = ts@;
                let ghost us0 = us@;
                ts.push(set_stmt(out.clone(), hir::Callable::Assign(tv)));
                us.push(set_stmt(out.clone(), hir::Callable::Assign(uv)));
                let ghost s0 = stmts@;
                let ghost tsv = ts@;
                let ghost usv = us@;
                stmts.push(hir::Statement::If(cv, hir::Block::new(ts), hir::Block::new(us)));
                proof {
                    lemma_sv_push(ts0, tsv.last());
                    lemma_sv_push(us0, usv.last());
                    lemma_sv_push(s0, stmts@.last());
                }
                Ok((stmts, hir::Val::Var(out)))
            },
        }
    }
}

// ---------------------------------------------------------------------------
// New names for the global variables.

proof fn lemma_decimal_len(n: nat)
    ensures
        decimal(n).len() >= 1,
        n >= 10 ==> decimal(n).len() >= 2,
    decreases n,
{
    if n >= 10 {
        lemma_decimal_len(n / 10);
    }
}

proof fn lemma_decimal_injective(a: nat, b: nat)
    requires
        decimal(a) == decimal(b),
    ensures
        a == b,
    decreases a,
{
    lemma_decimal_len(a);
    lemma_decimal_len(b);
    if a < 10 && b < 10 {
        assert(decimal(a)[0] == digit(a));
        assert(decimal(b)[0] == digit(b));
    } else if a >= 10 && b >= 10 {
        assert(decimal(a).drop_last() =~= decimal(a / 10));
        assert(decimal(b).drop_last() =~= decimal(b / 10));
        assert(decimal(a).last() == digit(a % 10));
        assert(decimal(b).last() == digit(b % 10));
        lemma_decimal_injective(a / 10, b / 10);
    }
}

/// The names tried in turn from the name `p`: `p`, then `p` followed by 0,
/// 1, 2 and so on.
pub open spec fn candidate(p: Seq<char>, j: nat) -> Seq<char> {
    if j == 0 {
        p
    } else {
        p + decimal((j - 1) as nat)
    }
}

/// The names tried in turn for a global variable `g`: `_g` and `g`, then
/// the same followed by 0, 1, 2 and so on.
pub open spec fn gvar_candidate(g: Seq<char>, j: nat) -> Seq<char> {
    candidate("_g"@ + g, j)
}

proof fn lemma_candidate_injective(p: Seq<char>, i: nat, j: nat)
    requires
        candidate(p, i) == candidate(p, j),
    ensures
        i == j,
{
    if i > 0 {
        lemma_decimal_len((i - 1) as nat);
    }
    if j > 0 {
        lemma_decimal_len((j - 1) as nat);
    }
    if i > 0 && j > 0 {
        let ci = candidate(p, i);
        let cj = candidate(p, j);
        assert(ci.subrange(p.len() as int, ci.len() as int) =~= decimal((i - 1) as nat));
        assert(cj.subrange(p.len() as int, cj.len() as int) =~= decimal((j - 1) as nat));
        lemma_decimal_injective((i - 1) as nat, (j - 1) as nat);
    }
}

proof fn lemma_tried_bound(g: Seq<char>, gl: Seq<Seq<char>>, j: nat)
    requires
        forall|i: nat| i < j ==> gl.contains(#[trigger] candidate(g, i)),
    ensures
        j <= gl.len(),
{
    let t = Seq::new(j, |i: int| candidate(g, i as nat));
    assert(t.no_duplicates()) by {
        assert forall|a: int, b: int| 0 <= a < t.len() && 0 <= b < t.len() && a != b implies t[a] != t[b] by {
            if t[a] == t[b] {
                lemma_candidate_injective(g, a as nat, b as nat);
            }
        }
    }
    t.unique_seq_to_set();
    assert(t.to_set().subset_of(gl.to_set())) by {
        assert forall|x: Seq<char>| t.to_set().contains(x) implies gl.to_set().contains(x) by {
            let q = choose|q: int| 0 <= q < t.len() && t[q] == x;
            assert(gl.contains(candidate(g, q as nat)));
        }
    }
    gl.lemma_cardinality_of_set();
    vstd::set_lib::lemma_len_subset(t.to_set(), gl.to_set());
}

impl Emitter {
    /// The first of the names `_g` and the variable's name, then the same
    /// followed by 0, 1, 2 and so on, that no global variable has yet.
    fn emit_unique_gvar_name(&mut self, gvar: &String) -> (r: String)
        requires
            old(self).global_vars@.len() < 0x7fff_ffff,
        ensures
            *final(self) == *old(self),
            exists|j: nat| r@ == gvar_candidate(gvar@, j)
                && forall|i: nat| i < j ==> names_v(old(self).global_vars@).contains(#[trigger] gvar_candidate(gvar@, i)),
            !names_v(old(self).global_vars@).contains(r@),
            g_named(r@),
    {
        proof {
            reveal_strlit("_g");
        }
        let ghost gl = names_v(self.global_vars@);
        let mut out = cat2("_g", gvar.as_str());
        let mut idx: i32 = 0;
        assert(out@ == gvar_candidate(gvar@, 0));
        while contains_name(&self.global_vars, out.as_str())
            invariant
                *self == *old(self),
                gl == names_v(self.global_vars@),
                gl.len() < 0x7fff_ffff,
                0 <= idx,
                idx <= gl.len(),
                out@ == gvar_candidate(gvar@, idx as nat),
                forall|i: nat| i < idx ==> gl.contains(#[trigger] gvar_candidate(gvar@, i)),
            decreases gl.len() - idx,
        {
            proof {
                reveal_strlit("_g");
                assert forall|i: nat| i < idx + 1 implies gl.contains(#[trigger] gvar_candidate(gvar@, i)) by {
                    if i == idx {
                    }
                }
                assert forall|i: nat| i < idx + 1 implies gl.contains(#[trigger] candidate("_g"@ + gvar@, i)) by {
                    assert(gl.contains(gvar_candidate(gvar@, i)));
                }
                lemma_tried_bound("_g"@ + gvar@, gl, (idx + 1) as nat);
            }
            let d = usize_to_decimal(idx as usize);
            out = cat3("_g", gvar.as_str(), d.as_str());
            idx = idx + 1;
            assert(out@ == gvar_candidate(gvar@, idx as nat));
        }
        assert(out@[0] == '_' && out@[1] == 'g');
        out
    }
}

// ---------------------------------------------------------------------------
// Functions, dispatch and the program.

/// The type tag of a static type: none for `Any`.
pub open spec fn type_tag(t: StaticTypeV) -> Option<TypeV> {
    match t {
        StaticTypeV::Any => None,
        StaticTypeV::Nothing => Some(TypeV::Nothing),
        StaticTypeV::Int64 => Some(TypeV::Int64),
        StaticTypeV::Bool => Some(TypeV::Bool),
        StaticTypeV::Str => Some(TypeV::Str),
        StaticTypeV::Struct(n) => Some(TypeV::Struct(n)),
    }
}

pub fn from_static_type(t: &StaticType) -> (r: Option<hir::Type>)
    ensures
        match type_tag(t@) {
            None => r is None,
            Some(x) => r is Some && hir::type_v(r->Some_0) == x,
        },
{
    match t {
        StaticType::Any => None,
        StaticType::Nothing => Some(hir::Type::Nothing),
        StaticType::Int64 => Some(hir::Type::Int64),
        StaticType::Bool => Some(hir::Type::Bool),
        StaticType::Str => Some(hir::Type::Str),
        StaticType::Struct(n) => Some(hir::Type::Struct(n.clone())),
    }
}

/// The names of the parameters.
pub open spec fn param_names<'a>(ps: Seq<Param<'a>>) -> Seq<Seq<char>> {
    ps.map_values(|p: Param<'a>| p.name.name@)
}

fn param_names_exec(ps: &Vec<Param>) -> (r: Vec<String>)
    ensures
        names_v(r@) == param_names(ps@),
{
    let mut r: Vec<String> = Vec::new();
    let mut i: usize = 0;
    while i < ps.len()
        invariant
            i <= ps@.len(),
            names_v(r@) == param_names(ps@.take(i as int)),
        decreases ps.len() - i,
    {
        r.push(ps[i].name.name.clone());
        assert(param_names(ps@.take(i + 1)) =~= param_names(ps@.take(i as int)).push(ps@[i as int].name.name@));
        assert(names_v(r@) =~= param_names(ps@.take(i as int)).push(ps@[i as int].name.name@));
        i = i + 1;
    }
    assert(ps@.take(ps@.len() as int) =~= ps@);
    r
}

/// How many parameters have a type other than `Any`.
pub open spec fn weight<'a>(ps: Seq<Param<'a>>) -> nat
    decreases ps.len(),
{
    if ps.len() == 0 {
        0
    } else {
        weight(ps.drop_last()) + if ps.last().ty@ == StaticTypeV::Any { 0nat } else { 1nat }
    }
}

fn weight_exec(ps: &Vec<Param>) -> (r: usize)
    ensures
        r == weight(ps@),
{
    let mut w: usize = 0;
    let mut i: usize = 0;
    while i < ps.len()
        invariant
            i <= ps@.len(),
            w == weight(ps@.take(i as int)),
            w <= i,
        decreases ps.len() - i,
    {
        assert(ps@.take(i + 1).drop_last() =~= ps@.take(i as int));
        if !matches!(ps[i].ty, StaticType::Any) {
            w = w + 1;
        }
        i = i + 1;
    }
    assert(ps@.take(ps@.len() as int) =~= ps@);
    w
}

/// The name of the variant `i` of a function.
pub open spec fn variant_name(name: Seq<char>, i: nat) -> Seq<char> {
    name + "_"@ + decimal(i)
}

fn variant_name_exec(name: &String, i: usize) -> (r: String)
    ensures
        r@ == variant_name(name@, i as nat),
{
    proof {
        reveal_strlit("_");
    }
    let d = usize_to_decimal(i);
    cat3(name.as_str(), "_", d.as_str())
}

/// The names of the `n` variants of a function.
pub fn fun_name_variants(name: &String, variants: usize) -> (r: Vec<String>)
    ensures
        names_v(r@) == Seq::new(variants as nat, |i: int| variant_name(name@, i as nat)),
{
    let mut r: Vec<String> = Vec::new();
    let mut i: usize = 0;
    while i < variants
        invariant
            i <= variants,
            names_v(r@) == Seq::new(i as nat, |j: int| variant_name(name@, j as nat)),
        decreases variants - i,
    {
        let ghost before = r@;
        let x = variant_name_exec(name, i);
        r.push(x);
        assert(names_v(r@) =~= names_v(before).push(x@));
        assert(names_v(r@) =~= Seq::new((i + 1) as nat, |j: int| variant_name(name@, j as nat)));
        i = i + 1;
    }
    r
}

/// A structure as the high-level language declares it: its name and the
/// names of its fields.
pub fn emit_struct_decl(s: &Structure) -> (r: Result<hir::StructDecl, String>)
    ensures
        r is Ok,
        r->Ok_0.name@ == s.name.name@,
        names_v(r->Ok_0.fields@) == param_names(s.fields@),
{
    Ok(hir::StructDecl::new(s.name.name.clone(), param_names_exec(&s.fields)))
}

/// At most one of the functions takes parameters all of type `Any`.
pub open spec fn one_generic<'a>(fs: Seq<Function<'a>>) -> bool {
    forall|i: int, j: int|
        #![trigger fs[i], fs[j]]
        0 <= i < fs.len() && 0 <= j < fs.len() && i != j && weight(fs[i].params@) == 0 ==> weight(fs[j].params@) != 0
}

impl Emitter {
    /// An emitter with nothing translated yet, and the given structures.
    pub fn init(st_names: Vec<String>) -> (r: Self)
        ensures
            r.wf(),
            r.id() == 0,
            r.current_local_vars@.len() == 0,
            r.current_params@.len() == 0,
            r.old_global_vars@.len() == 0,
            r.global_vars@.len() == 0,
            r.structure_names == st_names,
    {
        Emitter {
            next_intermediate_variable_id: 0,
            current_local_vars: Vec::new(),
            current_params: Vec::new(),
            old_global_vars: Vec::new(),
            global_vars: Vec::new(),
            structure_names: st_names,
        }
    }

    /// Translates a function under the given name: its parameters, its
    /// local variables, and its body, whose value is returned where it does
    /// not end with a semicolon.
    fn emit_fn(&mut self, f: &Function, name: String) -> (r: Result<hir::Function, String>)
        requires
            old(self).wf(),
        ensures
            final(self).wf(),
            final(self).old_global_vars == old(self).old_global_vars,
            final(self).global_vars == old(self).global_vars,
            final(self).structure_names == old(self).structure_names,
            r is Ok ==> r->Ok_0.name == name && names_v(r->Ok_0.args@) == param_names(f.params@),
            match fn_emitted(names_v(old(self).global_vars@), pairs_v(old(self).old_global_vars@), names_v(old(self).structure_names@), *f) {
                EOut::Done(_, l, ss, _) => {
                    &&& r is Ok
                    &&& r->Ok_0.name == name
                    &&& names_v(r->Ok_0.args@) == param_names(f.params@)
                    &&& names_v(r->Ok_0.vars@) == l
                    &&& hir::block_v(r->Ok_0.body) == ss
                    &&& final(self).current_local_vars@.len() == 0
                },
                EOut::Fail(m) => r is Err && r->Err_0@ == m,
            },
    {
        self.current_local_vars = Vec::new();
        self.current_params = param_names_exec(&f.params);
        self.next_intermediate_variable_id = 0;
        proof {
            assert(self.locals() =~= Seq::<Seq<char>>::empty());
            assert(self.ctx() == EmCtx {
                params: param_names(f.params@),
                globals: names_v(old(self).global_vars@),
                olds: pairs_v(old(self).old_global_vars@),
                structs: names_v(old(self).structure_names@),
            });
        }
        let block = match self.emit_block(&f.body, true) {
            Ok(b) => b,
            Err(m) => return Err(m),
        };
        let mut vars: Vec<String> = Vec::new();
        std::mem::swap(&mut vars, &mut self.current_local_vars);
        Ok(hir::Function::new(name, param_names_exec(&f.params), vars, block))
    }

    /// The statements that test whether the arguments have the types of a
    /// signature, and the variable that holds the answer.
    fn emit_dynamic_dispatch_condition_signature_match(&mut self, sig: Vec<(String, StaticType)>) -> (r: Result<(Vec<hir::Statement>, hir::Val), String>)
        requires
            old(self).wf(),
        ensures
            final(self).wf(),
            final(self).keeps(old(self)),
            final(self).grows(old(self)),
            ({
                let t = sig_tests(old(self).id(), old(self).locals(), sig_v(sig@), sig@.len() as int);
                let out = inter_name(t.0);
                &&& r is Ok
                &&& final(self).id() == next_id(t.0)
                &&& final(self).locals() == add_name_v(t.1, out)
                &&& sv(r->Ok_0.0@) == t.2.push(set_to(out, CallableV::Assign(ValV::Const(TypeV::Bool, 1)))) + and_chain(out, t.3)
                &&& val_v(r->Ok_0.1) == ValV::Var(out)
            }),
    {
        let ghost id0 = self.id();
        let ghost l0 = self.locals();
        let ghost sg = sig_v(sig@);
        let mut stmts: Vec<hir::Statement> = Vec::new();
        let mut conds_val: Vec<String> = Vec::new();
        let mut i: usize = 0;
        while i < sig.len()
            invariant
                i <= sig@.len(),
                sg == sig_v(sig@),
                self.wf(),
                self.keeps(old(self)),
                self.grows(old(self)),
                ({
                    let t = sig_tests(id0, l0, sg, i as int);
                    &&& self.id() == t.0
                    &&& self.locals() == t.1
                    &&& sv(stmts@) == t.2
                    &&& names_v(conds_val@) == t.3
                }),
            decreases sig.len() - i,
        {
            let ghost s0 = stmts@;
            let ghost c0 = conds_val@;
            match from_static_type(&sig[i].1) {
                Some(t) => {
                    let out = self.mk_intermediate_var();
                    conds_val.push(out.clone());
                    stmts.push(set_stmt(out, hir::Callable::IsType(hir::Val::Var(sig[i].0.clone()), t)));
                    proof {
                        lemma_sv_push(s0, stmts@.last());
                        assert(names_v(conds_val@) =~= names_v(c0).push(conds_val@.last()@));
                    }
                },
                None => {},
            }
            i = i + 1;
        }
        let ghost t = sig_tests(id0, l0, sg, sig@.len() as int);
        let cond_out = self.mk_intermediate_var();
        let ghost s1 = stmts@;
        stmts.push(set_stmt(cond_out.clone(), hir::Callable::Assign(hir::Val::Const(hir::Type::Bool, 1))));
        proof {
            lemma_sv_push(s1, stmts@.last());
        }
        let ghost base = sv(stmts@);
        let mut j: usize = 0;
        while j < conds_val.len()
            invariant
                j <= conds_val@.len(),
                names_v(conds_val@) == t.3,
                cond_out@ == inter_name(t.0),
                sv(stmts@) == base + and_chain(cond_out@, t.3).take(j as int),
            decreases conds_val.len() - j,
        {
            let ghost s2 = stmts@;
            stmts.push(set_stmt(cond_out.clone(), hir::Callable::Bin(hir::BinOp::And, hir::Val::Var(cond_out.clone()), hir::Val::Var(conds_val[j].clone()))));
            proof {
                lemma_sv_push(s2, stmts@.last());
                assert(names_v(conds_val@)[j as int] == conds_val@[j as int]@);
                assert(and_chain(cond_out@, t.3).take(j + 1) =~= and_chain(cond_out@, t.3).take(j as int).push(and_chain(cond_out@, t.3)[j as int]));
                assert(base + and_chain(cond_out@, t.3).take(j + 1) =~= (base + and_chain(cond_out@, t.3).take(j as int)).push(and_chain(cond_out@, t.3)[j as int]));
            }
            j = j + 1;
        }
        proof {
            assert(and_chain(cond_out@, t.3).take(conds_val@.len() as int) =~= and_chain(cond_out@, t.3));
        }
        Ok((stmts, hir::Val::Var(cond_out)))
    }
}

/// The translation of a function's body, with its parameters and no local
/// variable yet, the intermediate numbers starting at 0.
pub open spec fn fn_emitted<'a>(globals: Seq<Seq<char>>, olds: Seq<(Seq<char>, Seq<char>)>, structs: Seq<Seq<char>>, f: Function<'a>) -> EOut {
    eblock(EmCtx { params: param_names(f.params@), globals, olds, structs }, 0, Seq::empty(), f.body, true)
}

/// A signature, as values.
pub open spec fn sig_v(sig: Seq<(String, StaticType)>) -> Seq<(Seq<char>, StaticTypeV)> {
    sig.map_values(|p: (String, StaticType)| (p.0@, p.1@))
}

/// The tests of the first `k` parameters of a signature: the next
/// intermediate number, the local variables, the statements, and the
/// variables holding the answers. A parameter of type `Any` is not tested.
pub open spec fn sig_tests(id: u64, l: Seq<Seq<char>>, sig: Seq<(Seq<char>, StaticTypeV)>, k: int) -> (u64, Seq<Seq<char>>, Seq<StatementV>, Seq<Seq<char>>)
    decreases k,
{
    if k <= 0 || k > sig.len() {
        (id, l, Seq::empty(), Seq::empty())
    } else {
        let t = sig_tests(id, l, sig, k - 1);
        match type_tag(sig[k - 1].1) {
            None => t,
            Some(ty) => {
                let out = inter_name(t.0);
                (next_id(t.0), add_name_v(t.1, out), t.2.push(set_to(out, CallableV::IsType(ValV::Var(sig[k - 1].0), ty))), t.3.push(out))
            },
        }
    }
}

/// The conjunction of the answers into `out`, one statement each.
pub open spec fn and_chain(out: Seq<char>, cs: Seq<Seq<char>>) -> Seq<StatementV> {
    Seq::new(cs.len(), |i: int| set_to(out, CallableV::Bin(hir::BinOp::And, ValV::Var(out), ValV::Var(cs[i]))))
}

/// Orders the functions by increasing weight, keeping the order of those of
/// equal weight.
fn sort_by_weight(v: Vec<(usize, hir::Val, String)>) -> (r: Vec<(usize, hir::Val, String)>)
    ensures
        r@.len() == v@.len(),
        forall|i: int, j: int| 0 <= i <= j < r@.len() ==> r@[i].0 <= r@[j].0,
{
    let mut out: Vec<(usize, hir::Val, String)> = Vec::new();
    let mut rest = v;
    let n = rest.len();
    while rest.len() > 0
        invariant
            out@.len() + rest@.len() == n,
            forall|i: int, j: int| 0 <= i <= j < out@.len() ==> out@[i].0 <= out@[j].0,
        decreases rest.len(),
    {
        let x = rest.remove(0);
        let mut k: usize = out.len();
        while k > 0 && out[k - 1].0 > x.0
            invariant
                k <= out@.len(),
                forall|i: int, j: int| 0 <= i <= j < out@.len() ==> out@[i].0 <= out@[j].0,
                forall|j: int| k <= j < out@.len() ==> out@[j].0 > x.0,
            decreases k,
        {
            k = k - 1;
        }
        let ghost before = out@;
        out.insert(k, x);
        proof {
            assert forall|i: int, j: int| 0 <= i <= j < out@.len() implies out@[i].0 <= out@[j].0 by {
                if i < k as int && j < k as int {
                    assert(out@[i] == before[i] && out@[j] == before[j]);
                } else if i < k as int && j == k as int {
                    assert(out@[i] == before[i]);
                    assert(out@[j] == x);
                    assert(before[k - 1].0 <= x.0);
                    assert(before[i].0 <= before[k - 1].0);
                } else if i < k as int {
                    assert(out@[i] == before[i] && out@[j] == before[j - 1]);
                } else if i == k as int && j > k as int {
                    assert(out@[j] == before[j - 1]);
                } else if i > k as int {
                    assert(out@[i] == before[i - 1] && out@[j] == before[j - 1]);
                }
            }
        }
    }
    out
}

/// The declaration is a function of that name.
pub open spec fn fn_decl_named(d: hir::Decl, n: Seq<char>) -> bool {
    d matches hir::Decl::Function(f) && f.name@ == n
}

/// The declaration is a structure of that name.
pub open spec fn struct_decl_named(d: hir::Decl, n: Seq<char>) -> bool {
    d matches hir::Decl::Struct(s) && s.name@ == n
}

/// The declaration is the structure `s`: its name and its fields' names.
pub open spec fn struct_decl_is<'a>(d: hir::Decl, s: Structure<'a>) -> bool {
    match d {
        hir::Decl::Struct(sd) => sd.name@ == s.name.name@ && names_v(sd.fields@) == param_names(s.fields@),
        _ => false,
    }
}

/// The declaration is the function `name` with the parameters `ps`, whose
/// variables and body are those that the translation `o` gives.
pub open spec fn fn_decl_is<'a>(d: hir::Decl, name: Seq<char>, ps: Seq<Param<'a>>, o: EOut) -> bool {
    match d {
        hir::Decl::Function(hf) => {
            &&& hf.name@ == name
            &&& names_v(hf.args@) == param_names(ps)
            &&& match o {
                EOut::Done(_, l, ss, _) => names_v(hf.vars@) == l && hir::block_v(hf.body) == ss,
                _ => false,
            }
        },
        _ => false,
    }
}

/// The declaration is a function `name` with the parameters `ps`.
pub open spec fn dispatcher_is<'a>(d: hir::Decl, name: Seq<char>, ps: Seq<Param<'a>>) -> bool {
    match d {
        hir::Decl::Function(hf) => hf.name@ == name && names_v(hf.args@) == param_names(ps),
        _ => false,
    }
}

/// The declarations of the functions of a name: the function itself where
/// there is one; else each variant under its numbered name, then a function
/// of the name that dispatches to them.
pub open spec fn name_emitted<'a>(
    gl: Seq<Seq<char>>,
    olds: Seq<(Seq<char>, Seq<char>)>,
    structs: Seq<Seq<char>>,
    name: Seq<char>,
    fs: Seq<Function<'a>>,
    ds: Seq<hir::Decl>,
) -> bool {
    if fs.len() == 1 {
        ds.len() == 1 && fn_decl_is(ds[0], name, fs[0].params@, fn_emitted(gl, olds, structs, fs[0]))
    } else {
        &&& ds.len() == fs.len() + 1
        &&& forall|i: int|
            0 <= i < fs.len() ==> fn_decl_is(
                #[trigger] ds[i],
                variant_name(name, i as nat),
                fs[i].params@,
                fn_emitted(gl, olds, structs, fs[i]),
            )
        &&& dispatcher_is(ds.last(), name, fs[0].params@)
    }
}

/// The translation of the functions fails with `m`: at the first variant,
/// name after name, whose translation fails.
pub open spec fn first_fn_failure<'a>(t: TypedDecls<'a>, m: Seq<char>) -> bool {
    let gl = program_globals(t.global_expressions@);
    let olds = program_olds(t.global_expressions@);
    let structs = struct_names(t.structures@);
    exists|i: int|
        0 <= i < t.functions@.len() && #[trigger] first_variant_failure(gl, olds, structs, t.functions@[i].1@, m)
            && forall|i2: int, j: int|
            0 <= i2 < i && 0 <= j < t.functions@[i2].1@.len() ==> #[trigger] fn_emitted(
                gl,
                olds,
                structs,
                t.functions@[i2].1@[j],
            ) is Done
}

/// The declarations of a name translate each of its variants.
proof fn lemma_name_emitted_done<'a>(
    gl: Seq<Seq<char>>,
    olds: Seq<(Seq<char>, Seq<char>)>,
    structs: Seq<Seq<char>>,
    name: Seq<char>,
    fs: Seq<Function<'a>>,
    ds: Seq<hir::Decl>,
    j: int,
)
    requires
        name_emitted(gl, olds, structs, name, fs, ds),
        0 <= j < fs.len(),
    ensures
        fn_emitted(gl, olds, structs, fs[j]) is Done,
{
    if fs.len() == 1 {
        assert(fn_decl_is(ds[0], name, fs[0].params@, fn_emitted(gl, olds, structs, fs[0])));
    } else {
        assert(fn_decl_is(ds[j], variant_name(name, j as nat), fs[j].params@, fn_emitted(gl, olds, structs, fs[j])));
    }
}

/// The translation of a variant among `fs` fails with `m`, and those
/// before it go through.
pub open spec fn first_variant_failure<'a>(
    gl: Seq<Seq<char>>,
    olds: Seq<(Seq<char>, Seq<char>)>,
    structs: Seq<Seq<char>>,
    fs: Seq<Function<'a>>,
    m: Seq<char>,
) -> bool {
    exists|j: int|
        0 <= j < fs.len() && #[trigger] fn_emitted(gl, olds, structs, fs[j]) == EOut::Fail(m) && forall|j2: int|
            0 <= j2 < j ==> #[trigger] fn_emitted(gl, olds, structs, fs[j2]) is Done
}

fn var_vals(ps: &Vec<Param>) -> (r: Vec<hir::Val>)
    ensures
        r@.len() == ps@.len(),
{
    let mut r: Vec<hir::Val> = Vec::new();
    let mut i: usize = 0;
    while i < ps.len()
        invariant
            i <= ps@.len(),
            r@.len() == i,
        decreases ps.len() - i,
    {
        r.push(hir::Val::Var(ps[i].name.name.clone()));
        i = i + 1;
    }
    r
}

fn typed_params(ps: &Vec<Param>) -> (r: Vec<(String, StaticType)>)
    ensures
        r@.len() == ps@.len(),
{
    let mut r: Vec<(String, StaticType)> = Vec::new();
    let mut i: usize = 0;
    while i < ps.len()
        invariant
            i <= ps@.len(),
            r@.len() == i,
        decreases ps.len() - i,
    {
        r.push((ps[i].name.name.clone(), ps[i].ty.duplicate()));
        i = i + 1;
    }
    r
}

impl Emitter {
    /// Translates the functions of a name. A single function keeps the
    /// name. Several are renamed after their place (`f_0`, `f_1`, ...), and a
    /// function of the name itself calls the most selective one whose
    /// parameter types the arguments have, the one without typed parameters
    /// last, and fails where none fits.
    fn emit_dynamic_dispatch(&mut self, name: &String, f_s: &Vec<Function>) -> (r: Result<Vec<hir::Decl>, String>)
        requires
            old(self).wf(),
            f_s@.len() >= 1,
            one_generic(f_s@),
        ensures
            final(self).wf(),
            final(self).old_global_vars == old(self).old_global_vars,
            final(self).global_vars == old(self).global_vars,
            final(self).structure_names == old(self).structure_names,
            r is Ok && f_s@.len() == 1 ==> r->Ok_0@.len() == 1 && fn_decl_named(r->Ok_0@[0], name@),
            f_s@.len() == 1 ==> match fn_emitted(names_v(old(self).global_vars@), pairs_v(old(self).old_global_vars@), names_v(old(self).structure_names@), f_s@[0]) {
                EOut::Done(_, _, _, _) => r is Ok,
                EOut::Fail(m) => r is Err && r->Err_0@ == m,
            },
            (forall|i: int| 0 <= i < f_s@.len() ==> #[trigger] fn_emitted(names_v(old(self).global_vars@), pairs_v(old(self).old_global_vars@), names_v(old(self).structure_names@), f_s@[i]) is Done) ==> r is Ok,
            r is Ok && f_s@.len() > 1 ==> {
                &&& r->Ok_0@.len() == f_s@.len() + 1
                &&& forall|i: int| 0 <= i < f_s@.len() ==> fn_decl_named(#[trigger] r->Ok_0@[i], variant_name(name@, i as nat))
                &&& fn_decl_named(r->Ok_0@.last(), name@)
            },
            r is Ok ==> name_emitted(
                names_v(old(self).global_vars@),
                pairs_v(old(self).old_global_vars@),
                names_v(old(self).structure_names@),
                name@,
                f_s@,
                r->Ok_0@,
            ),
            r matches Err(m) ==> first_variant_failure(
                names_v(old(self).global_vars@),
                pairs_v(old(self).old_global_vars@),
                names_v(old(self).structure_names@),
                f_s@,
                m@,
            ),
    {
        let n = f_s.len();
        if n > 1 {
            let mut functions: Vec<(usize, hir::Val, String)> = Vec::new();
            let mut fun_decls: Vec<hir::Decl> = Vec::new();
            let mut stmts: Vec<hir::Statement> = Vec::new();
            let args = var_vals(&f_s[0].params);
            let str_sig = param_names_exec(&f_s[0].params);
            let out = self.mk_intermediate_var();
            let mut index: usize = 0;
            while index < n
                invariant
                    n == f_s@.len(),
                    index <= n,
                    self.wf(),
                    self.old_global_vars == old(self).old_global_vars,
                    self.global_vars == old(self).global_vars,
                    self.structure_names == old(self).structure_names,
                decreases n - index,
            {
                let sig = typed_params(&f_s[index].params);
                let (mut cond_stmts, cond_val) = match self.emit_dynamic_dispatch_condition_signature_match(sig) {
                    Ok(t) => t,
                    Err(m) => return Err(m),
                };
                stmts.append(&mut cond_stmts);
                let w = weight_exec(&f_s[index].params);
                functions.push((w, cond_val, variant_name_exec(name, index)));
                index = index + 1;
            }
            let mut intermediate_vars: Vec<String> = Vec::new();
            std::mem::swap(&mut intermediate_vars, &mut self.current_local_vars);
            let mut index: usize = 0;
            while index < n
                invariant
                    n == f_s@.len(),
                    index <= n,
                    fun_decls@.len() == index,
                    forall|i: int| 0 <= i < index ==> fn_decl_named(#[trigger] fun_decls@[i], variant_name(name@, i as nat)),
                    forall|i: int|
                        0 <= i < index ==> fn_decl_is(
                            #[trigger] fun_decls@[i],
                            variant_name(name@, i as nat),
                            f_s@[i].params@,
                            fn_emitted(
                                names_v(old(self).global_vars@),
                                pairs_v(old(self).old_global_vars@),
                                names_v(old(self).structure_names@),
                                f_s@[i],
                            ),
                        ),
                    self.wf(),
                    self.old_global_vars == old(self).old_global_vars,
                    self.global_vars == old(self).global_vars,
                    self.structure_names == old(self).structure_names,
                decreases n - index,
            {
                let vn = variant_name_exec(name, index);
                let f = match self.emit_fn(&f_s[index], vn) {
                    Ok(f) => f,
                    Err(m) => {
                        proof {
                            assert forall|j2: int| 0 <= j2 < index implies #[trigger] fn_emitted(
                                names_v(old(self).global_vars@),
                                pairs_v(old(self).old_global_vars@),
                                names_v(old(self).structure_names@),
                                f_s@[j2],
                            ) is Done by {
                                assert(fn_decl_is(
                                    fun_decls@[j2],
                                    variant_name(name@, j2 as nat),
                                    f_s@[j2].params@,
                                    fn_emitted(
                                        names_v(old(self).global_vars@),
                                        pairs_v(old(self).old_global_vars@),
                                        names_v(old(self).structure_names@),
                                        f_s@[j2],
                                    ),
                                ));
                            }
                            assert(fn_emitted(
                                names_v(old(self).global_vars@),
                                pairs_v(old(self).old_global_vars@),
                                names_v(old(self).structure_names@),
                                f_s@[index as int],
                            ) == EOut::Fail(m@));
                        }
                        return Err(m);
                    },
                };
                fun_decls.push(hir::Decl::Function(f));
                index = index + 1;
            }
            let mut sorted = sort_by_weight(functions);
            proof {
                reveal_strlit("Dynamic dispatch failure for function call '");
                reveal_strlit("'");
                reveal_strlit("panic");
            }
            let msg = cat3("Dynamic dispatch failure for function call '", name.as_str(), "'");
            let mut panic_args: Vec<hir::Val> = Vec::new();
            panic_args.push(hir::Val::Str(msg));
            let mut acc_stmts: Vec<hir::Statement> = Vec::new();
            acc_stmts.push(set_stmt(out.clone(), hir::Callable::Call(owned("panic"), true, panic_args)));
            let mut acc = hir::Block::new(acc_stmts);
            while sorted.len() > 0
                decreases sorted.len(),
            {
                let (w, cond_val, fname) = sorted.remove(0);
                let mut call_stmts: Vec<hir::Statement> = Vec::new();
                call_stmts.push(set_stmt(out.clone(), hir::Callable::Call(fname, false, copy_vals(&args))));
                let call_block = hir::Block::new(call_stmts);
                if w == 0 {
                    acc = call_block;
                } else {
                    let mut if_stmts: Vec<hir::Statement> = Vec::new();
                    if_stmts.push(hir::Statement::If(cond_val, call_block, acc));
                    acc = hir::Block::new(if_stmts);
                }
            }
            let mut body = stmts;
            let mut tail = acc.stmts;
            body.append(&mut tail);
            body.push(hir::Statement::Return(hir::Val::Var(out)));
            fun_decls.push(hir::Decl::Function(hir::Function::new(name.clone(), str_sig, intermediate_vars, hir::Block::new(body))));
            Ok(fun_decls)
        } else {
            let f = match self.emit_fn(&f_s[0], name.clone()) {
                Ok(f) => f,
                Err(m) => {
                    proof {
                        assert(fn_emitted(
                            names_v(old(self).global_vars@),
                            pairs_v(old(self).old_global_vars@),
                            names_v(old(self).structure_names@),
                            f_s@[0],
                        ) == EOut::Fail(m@));
                    }
                    return Err(m);
                },
            };
            let mut v: Vec<hir::Decl> = Vec::new();
            v.push(hir::Decl::Function(f));
            Ok(v)
        }
    }
}

/// The first of the names tried from `p` that the list does not hold.
pub open spec fn least_free(p: Seq<char>, gl: Seq<Seq<char>>) -> Seq<char> {
    candidate(p, choose|j: nat| !gl.contains(candidate(p, j)) && forall|i: nat| i < j ==> gl.contains(#[trigger] candidate(p, i)))
}

proof fn lemma_least_free(p: Seq<char>, gl: Seq<Seq<char>>, j: nat)
    requires
        !gl.contains(candidate(p, j)),
        forall|i: nat| i < j ==> gl.contains(#[trigger] candidate(p, i)),
    ensures
        least_free(p, gl) == candidate(p, j),
{
    let k = choose|k: nat| !gl.contains(candidate(p, k)) && forall|i: nat| i < k ==> gl.contains(#[trigger] candidate(p, i));
    assert(!gl.contains(candidate(p, k)) && forall|i: nat| i < k ==> gl.contains(#[trigger] candidate(p, i)));
    if k < j {
        assert(gl.contains(candidate(p, k)));
    } else if k > j {
        assert(gl.contains(candidate(p, j)));
    }
}

/// The renamings with `n` renamed `v`, in place of its earlier renaming.
pub open spec fn set_renaming(olds: Seq<(Seq<char>, Seq<char>)>, n: Seq<char>, v: Seq<char>) -> Seq<(Seq<char>, Seq<char>)> {
    if exists|i: int| 0 <= i < olds.len() && #[trigger] olds[i].0 == n {
        olds.update(choose|i: int| 0 <= i < olds.len() && #[trigger] olds[i].0 == n, (n, v))
    } else {
        olds.push((n, v))
    }
}

/// The new names and the renamings once the first `k` global variables of
/// `raw` are each given the first free name after `_g` and their name.
pub open spec fn renamings(gl: Seq<Seq<char>>, olds: Seq<(Seq<char>, Seq<char>)>, raw: Seq<Seq<char>>, k: int) -> (Seq<Seq<char>>, Seq<(Seq<char>, Seq<char>)>)
    decreases k,
{
    if k <= 0 || k > raw.len() {
        (gl, olds)
    } else {
        let t = renamings(gl, olds, raw, k - 1);
        let v = least_free("_g"@ + raw[k - 1], t.0);
        (t.0.push(v), set_renaming(t.1, raw[k - 1], v))
    }
}

/// The global variables of a program: those its global expressions assign,
/// and `nothing`.
pub open spec fn raw_globals<'a>(exprs: Seq<Exp<'a>>) -> Seq<Seq<char>> {
    assigns_list(exprs, exprs.len() as int).map_values(|x: (crate::automata::line_counter::Span<'a>, Seq<char>)| x.1).push("nothing"@)
}

impl Emitter {
    /// The entry point of the program: a function named `__start` (or
    /// `__start` followed by 0, 1, 2 and so on, the first that no function
    /// has) whose body is the global expressions in their order. Each
    /// variable they assign, and `nothing`, becomes a global variable under
    /// a new name.
    fn emit_entrypoint(&mut self, fun_names: Vec<String>, toplevel: Vec<Exp>) -> (r: Result<(Vec<String>, hir::Function), String>)
        requires
            old(self).wf(),
            fun_names@.len() < 0x7fff_ffff,
            old(self).global_vars@.len() + assigns_list(toplevel@, toplevel@.len() as int).len() + 1 < 0x7fff_ffff,
        ensures
            final(self).wf(),
            final(self).structure_names == old(self).structure_names,
            final(self).current_params == old(self).current_params,
            ({
                let t = renamings(names_v(old(self).global_vars@), pairs_v(old(self).old_global_vars@), raw_globals(toplevel@), raw_globals(toplevel@).len() as int);
                names_v(final(self).global_vars@) == t.0 && pairs_v(final(self).old_global_vars@) == t.1
            }),
            match eflat(final(self).ctx(), old(self).id(), old(self).locals(), toplevel@, toplevel@.len() as int) {
                EOut::Done(_, l, ss, _) => r is Ok && sv(r->Ok_0.1.body.stmts@) == ss && names_v(r->Ok_0.1.vars@) == l,
                EOut::Fail(m) => r is Err && r->Err_0@ == m,
            },
            r is Ok ==> {
                &&& !names_v(fun_names@).contains(r->Ok_0.1.name@)
                &&& exists|j: nat| r->Ok_0.1.name@ == candidate("__start"@, j)
                    && forall|i: nat| i < j ==> names_v(fun_names@).contains(#[trigger] candidate("__start"@, i))
                &&& r->Ok_0.1.args@.len() == 0
                &&& names_v(r->Ok_0.0@) == names_v(final(self).global_vars@)
            },
    {
        proof {
            reveal_strlit("__start");
        }
        let ghost fl = names_v(fun_names@);
        let mut entrypoint_name = owned("__start");
        let mut idx: i32 = 0;
        while contains_name(&fun_names, entrypoint_name.as_str())
            invariant
                fl == names_v(fun_names@),
                fl.len() < 0x7fff_ffff,
                0 <= idx,
                idx <= fl.len(),
                entrypoint_name@ == candidate("__start"@, idx as nat),
                forall|i: nat| i < idx ==> fl.contains(#[trigger] candidate("__start"@, i)),
            decreases fl.len() - idx,
        {
            proof {
                assert forall|i: nat| i < idx + 1 implies fl.contains(#[trigger] candidate("__start"@, i)) by {
                    if i == idx {
                    }
                }
                lemma_tried_bound("__start"@, fl, (idx + 1) as nat);
            }
            let d = usize_to_decimal(idx as usize);
            entrypoint_name = cat2("__start", d.as_str());
            idx = idx + 1;
        }
        let assigned = collect_all_assign_in_array(&toplevel);
        let ghost av = assigns_list(toplevel@, toplevel@.len() as int);
        let mut raw: Vec<String> = Vec::new();
        let mut i: usize = 0;
        proof {
            assert(crate::parser::typing::assign::idents_v(assigned@).len() == assigned@.len());
        }
        while i < assigned.len()
            invariant
                i <= assigned@.len(),
                av == crate::parser::typing::assign::idents_v(assigned@),
                names_v(raw@) == av.take(i as int).map_values(|x: (crate::automata::line_counter::Span<'_>, Seq<char>)| x.1),
            decreases assigned.len() - i,
        {
            let ghost r0 = raw@;
            raw.push(assigned[i].name.clone());
            proof {
                assert(av[i as int] == crate::parser::typing::assign::idents_v(assigned@)[i as int]);
                assert(names_v(raw@) =~= names_v(r0).push(assigned@[i as int].name@));
                assert(av.take(i + 1).map_values(|x: (crate::automata::line_counter::Span<'_>, Seq<char>)| x.1)
                    =~= av.take(i as int).map_values(|x: (crate::automata::line_counter::Span<'_>, Seq<char>)| x.1).push(av[i as int].1));
            }
            i = i + 1;
        }
        let ghost r1 = raw@;
        raw.push(owned("nothing"));
        proof {
            reveal_strlit("nothing");
            assert(av.take(av.len() as int) =~= av);
            assert(names_v(raw@) =~= names_v(r1).push("nothing"@));
            assert(names_v(raw@) == raw_globals(toplevel@));
        }
        let ghost rg = raw_globals(toplevel@);
        let ghost gl0 = names_v(self.global_vars@);
        let ghost ol0 = pairs_v(self.old_global_vars@);
        let ghost g0 = self.global_vars@.len();
        let mut k: usize = 0;
        while k < raw.len()
            invariant
                k <= raw@.len(),
                names_v(raw@) == rg,
                g0 + raw@.len() < 0x7fff_ffff,
                self.global_vars@.len() == g0 + k,
                self.wf(),
                self.structure_names == old(self).structure_names,
                self.current_params == old(self).current_params,
                self.next_intermediate_variable_id == old(self).next_intermediate_variable_id,
                self.current_local_vars == old(self).current_local_vars,
                ({
                    let t = renamings(gl0, ol0, rg, k as int);
                    names_v(self.global_vars@) == t.0 && pairs_v(self.old_global_vars@) == t.1
                }),
            decreases raw.len() - k,
        {
            let ghost t0 = renamings(gl0, ol0, rg, k as int);
            let gvar_new_name = self.emit_unique_gvar_name(&raw[k]);
            proof {
                assert(rg[k as int] == raw@[k as int]@);
                let j = choose|j: nat| gvar_new_name@ == gvar_candidate(raw@[k as int]@, j)
                    && forall|i: nat| i < j ==> names_v(self.global_vars@).contains(#[trigger] gvar_candidate(raw@[k as int]@, i));
                assert forall|i: nat| i < j implies names_v(self.global_vars@).contains(#[trigger] candidate("_g"@ + raw@[k as int]@, i)) by {
                    assert(names_v(self.global_vars@).contains(gvar_candidate(raw@[k as int]@, i)));
                }
                lemma_least_free("_g"@ + raw@[k as int]@, names_v(self.global_vars@), j);
            }
            let ghost gv0 = self.global_vars@;
            self.global_vars.push(gvar_new_name.clone());
            proof {
                assert(names_v(self.global_vars@) =~= names_v(gv0).push(gvar_new_name@));
            }
            proof {
                assert forall|t: int| 0 <= t < self.global_vars@.len() implies g_named(#[trigger] self.global_vars@[t]@) by {
                    if t < gv0.len() {
                        assert(self.global_vars@[t] == gv0[t]);
                    }
                }
            }
            let ghost olds0 = self.old_global_vars@;
            match old_name_index(&self.old_global_vars, &raw[k]) {
                Some(p) => {
                    let e = self.old_global_vars.remove(p);
                    let (key, _) = e;
                    let ghost kv = key@;
                    let ghost vv = gvar_new_name@;
                    self.old_global_vars.insert(p, (key, gvar_new_name));
                    proof {
                        let o = self.old_global_vars@;
                        assert(o =~= olds0.update(p as int, o[p as int]));
                        let po = pairs_v(olds0);
                        assert(po[p as int].0 == raw@[k as int]@);
                        let q = choose|i: int| 0 <= i < po.len() && #[trigger] po[i].0 == raw@[k as int]@;
                        if q != p as int {
                            assert(olds0[q].0@ != olds0[p as int].0@);
                        }
                        assert(pairs_v(o) =~= po.update(p as int, (raw@[k as int]@, vv)));
                        assert forall|a: int, b: int| 0 <= a < o.len() && 0 <= b < o.len() && a != b
                            implies #[trigger] o[a].0@ != #[trigger] o[b].0@ by {
                            assert(o[a].0@ == olds0[a].0@);
                            assert(o[b].0@ == olds0[b].0@);
                        }
                    }
                },
                None => {
                    let ghost vv = gvar_new_name@;
                    self.old_global_vars.push((raw[k].clone(), gvar_new_name));
                    proof {
                        let o = self.old_global_vars@;
                        let po = pairs_v(olds0);
                        assert(!exists|i: int| 0 <= i < po.len() && #[trigger] po[i].0 == raw@[k as int]@);
                        assert(pairs_v(o) =~= po.push((raw@[k as int]@, vv)));
                        assert forall|a: int, b: int| 0 <= a < o.len() && 0 <= b < o.len() && a != b
                            implies #[trigger] o[a].0@ != #[trigger] o[b].0@ by {
                            if a < olds0.len() {
                                assert(o[a] == olds0[a]);
                            }
                            if b < olds0.len() {
                                assert(o[b] == olds0[b]);
                            }
                        }
                    }
                },
            }
            k = k + 1;
        }
        proof {
            assert(rg.len() == raw@.len());
        }
        let stmts = match self.emit_flattened_statements(&toplevel, toplevel.len()) {
            Ok(x) => x,
            Err(m) => return Err(m),
        };
        let mut locals: Vec<String> = Vec::new();
        std::mem::swap(&mut locals, &mut self.current_local_vars);
        let mut globals: Vec<String> = Vec::new();
        let mut t: usize = 0;
        while t < self.global_vars.len()
            invariant
                t <= self.global_vars@.len(),
                names_v(globals@) == names_v(self.global_vars@.take(t as int)),
            decreases self.global_vars.len() - t,
        {
            let ghost before = globals@;
            let x = self.global_vars[t].clone();
            globals.push(x);
            assert(names_v(self.global_vars@.take(t + 1)) =~= names_v(self.global_vars@.take(t as int)).push(self.global_vars@[t as int]@));
            assert(names_v(globals@) =~= names_v(before).push(x@));
            t = t + 1;
        }
        assert(self.global_vars@.take(self.global_vars@.len() as int) =~= self.global_vars@);
        let f = hir::Function::new(entrypoint_name, Vec::new(), locals, hir::Block::new(stmts));
        Ok((globals, f))
    }
}

/// Where a global variable stands in the list of renamings.
fn old_name_index(olds: &Vec<(String, String)>, n: &String) -> (r: Option<usize>)
    ensures
        match r {
            Some(p) => p < olds@.len() && olds@[p as int].0@ == n@,
            None => forall|j: int| 0 <= j < olds@.len() ==> olds@[j].0@ != n@,
        },
{
    let mut i: usize = 0;
    while i < olds.len()
        invariant
            i <= olds@.len(),
            forall|j: int| 0 <= j < i ==> olds@[j].0@ != n@,
        decreases olds.len() - i,
    {
        if str_eq(olds[i].0.as_str(), n.as_str()) {
            return Some(i);
        }
        i = i + 1;
    }
    None
}

/// How many functions the first `k` names hold.
pub open spec fn variant_count<'a>(fs: Seq<(String, Vec<Function<'a>>)>, k: int) -> nat
    decreases k,
{
    if k <= 0 || k > fs.len() {
        0
    } else {
        variant_count(fs, k - 1) + fs[k - 1].1@.len()
    }
}

proof fn lemma_variant_count_grows<'a>(fs: Seq<(String, Vec<Function<'a>>)>, k: int, m: int)
    requires
        0 <= k <= m <= fs.len(),
    ensures
        variant_count(fs, k) <= variant_count(fs, m),
    decreases m - k,
{
    if m > k {
        lemma_variant_count_grows(fs, k, m - 1);
    }
}

/// The names of the structures.
pub open spec fn struct_names<'a>(ss: Seq<(String, Structure<'a>)>) -> Seq<Seq<char>> {
    ss.map_values(|p: (String, Structure<'a>)| p.0@)
}

/// The new names of the global variables of a program.
pub open spec fn program_globals<'a>(exprs: Seq<Exp<'a>>) -> Seq<Seq<char>> {
    renamings(Seq::empty(), Seq::empty(), raw_globals(exprs), raw_globals(exprs).len() as int).0
}

/// The renamings of the global variables of a program.
pub open spec fn program_olds<'a>(exprs: Seq<Exp<'a>>) -> Seq<(Seq<char>, Seq<char>)> {
    renamings(Seq::empty(), Seq::empty(), raw_globals(exprs), raw_globals(exprs).len() as int).1
}

/// The translation of the global expressions of a program.
pub open spec fn entry_emitted<'a>(t: TypedDecls<'a>) -> EOut {
    eflat(
        EmCtx {
            params: Seq::empty(),
            globals: program_globals(t.global_expressions@),
            olds: program_olds(t.global_expressions@),
            structs: struct_names(t.structures@),
        },
        0,
        Seq::empty(),
        t.global_expressions@,
        t.global_expressions@.len() as int,
    )
}

/// Every function of the program translates with no error.
pub open spec fn functions_emitted<'a>(t: TypedDecls<'a>) -> bool {
    forall|i: int, j: int|
        0 <= i < t.functions@.len() && 0 <= j < t.functions@[i].1@.len() ==> #[trigger] fn_emitted(
            program_globals(t.global_expressions@),
            program_olds(t.global_expressions@),
            struct_names(t.structures@),
            t.functions@[i].1@[j],
        ) is Done
}

/// The numbered names of the variants of the functions of the first `k`
/// names.
pub open spec fn fun_names_of<'a>(fs: Seq<(String, Vec<Function<'a>>)>, k: int) -> Seq<Seq<char>>
    decreases k,
{
    if k <= 0 || k > fs.len() {
        Seq::empty()
    } else {
        fun_names_of(fs, k - 1) + Seq::new(fs[k - 1].1@.len(), |i: int| variant_name(fs[k - 1].0@, i as nat))
    }
}

/// The first `k` lists, one after the other.
pub open spec fn concat_all<T>(parts: Seq<Seq<T>>, k: int) -> Seq<T>
    decreases k,
{
    if k <= 0 || k > parts.len() {
        Seq::empty()
    } else {
        concat_all(parts, k - 1) + parts[k - 1]
    }
}

proof fn lemma_concat_all_prefix<T>(a: Seq<Seq<T>>, b: Seq<Seq<T>>, k: int)
    requires
        0 <= k <= a.len(),
        k <= b.len(),
        forall|i: int| 0 <= i < k ==> a[i] == b[i],
    ensures
        concat_all(a, k) == concat_all(b, k),
    decreases k,
{
    if k > 0 {
        lemma_concat_all_prefix(a, b, k - 1);
    }
}

/// The entry point: the function of the global expressions, named after
/// the first free `__start` name, with no parameter.
pub open spec fn entry_decl_is<'a>(d: hir::Decl, t: TypedDecls<'a>, name: Seq<char>) -> bool {
    match d {
        hir::Decl::Function(hf) => {
            &&& hf.name@ == name
            &&& name == least_free("__start"@, fun_names_of(t.functions@, t.functions@.len() as int))
            &&& hf.args@.len() == 0
            &&& match entry_emitted(t) {
                EOut::Done(_, l, ss, _) => names_v(hf.vars@) == l && sv(hf.body.stmts@) == ss,
                _ => false,
            }
        },
        _ => false,
    }
}

/// The layout of the translation of a program: a declaration for each
/// structure; then, name by name, the declarations of its functions; last
/// the entry point. The global variables are the new names of those the
/// global expressions assign, and `nothing`.
pub open spec fn hir_laid_out<'a>(t: TypedDecls<'a>, src: hir::Source) -> bool {
    let gl = program_globals(t.global_expressions@);
    let olds = program_olds(t.global_expressions@);
    let structs = struct_names(t.structures@);
    let n = t.structures@.len();
    &&& src.decls@.len() > n
    &&& forall|i: int| 0 <= i < n ==> struct_decl_is(#[trigger] src.decls@[i], t.structures@[i].1)
    &&& exists|parts: Seq<Seq<hir::Decl>>|
        {
            &&& parts.len() == t.functions@.len()
            &&& forall|i: int|
                0 <= i < parts.len() ==> name_emitted(gl, olds, structs, t.functions@[i].0@, t.functions@[i].1@, #[trigger] parts[i])
            &&& src.decls@ == src.decls@.take(n as int) + concat_all(parts, parts.len() as int) + seq![src.decls@.last()]
        }
    &&& entry_decl_is(src.decls@.last(), t, src.entrypoint@)
    &&& names_v(src.globals@) == gl
}

/// Translates typed declarations into the high-level language: the
/// structures first, then, name by name, the functions with their dispatch,
/// and last the entry point made of the global expressions.
pub fn typed_ast_to_hir(t_ast: TypedDecls) -> (r: Result<hir::Source, String>)
    requires
        forall|i: int| 0 <= i < t_ast.functions@.len() ==> (#[trigger] t_ast.functions@[i]).1@.len() >= 1
            && one_generic(t_ast.functions@[i].1@),
        variant_count(t_ast.functions@, t_ast.functions@.len() as int) < 0x7fff_ffff,
        assigns_list(t_ast.global_expressions@, t_ast.global_expressions@.len() as int).len() + 1 < 0x7fff_ffff,
    ensures
        r is Ok ==> hir_laid_out(t_ast, r->Ok_0),
        match entry_emitted(t_ast) {
            EOut::Fail(m) => r is Err && r->Err_0@ == m,
            _ => true,
        },
        entry_emitted(t_ast) is Done && functions_emitted(t_ast) ==> r is Ok,
        entry_emitted(t_ast) is Done && r is Err ==> first_fn_failure(t_ast, r->Err_0@),
{
    let ghost fs = t_ast.functions@;
    let ghost t0 = t_ast;
    let TypedDecls { functions, structures, global_expressions } = t_ast;
    let mut compiled: Vec<hir::Decl> = Vec::new();
    let mut names: Vec<String> = Vec::new();
    let mut i: usize = 0;
    while i < structures.len()
        invariant
            i <= structures@.len(),
            compiled@.len() == i,
            forall|j: int| 0 <= j < i ==> struct_decl_is(#[trigger] compiled@[j], structures@[j].1),
            names_v(names@) == struct_names(structures@.take(i as int)),
        decreases structures.len() - i,
    {
        let d = emit_struct_decl(&structures[i].1)?;
        compiled.push(hir::Decl::Struct(d));
        let ghost n0 = names@;
        names.push(structures[i].0.clone());
        proof {
            assert(names_v(names@) =~= names_v(n0).push(structures@[i as int].0@));
            assert(struct_names(structures@.take(i + 1)) =~= struct_names(structures@.take(i as int)).push(structures@[i as int].0@));
        }
        i = i + 1;
    }
    proof {
        assert(structures@.take(structures@.len() as int) =~= structures@);
    }
    let mut emitter = Emitter::init(names);
    let mut fun_names: Vec<String> = Vec::new();
    let mut k: usize = 0;
    while k < functions.len()
        invariant
            k <= functions@.len(),
            fs == functions@,
            fun_names@.len() == variant_count(fs, k as int),
            variant_count(fs, fs.len() as int) < 0x7fff_ffff,
            names_v(fun_names@) == fun_names_of(fs, k as int),
        decreases functions.len() - k,
    {
        proof {
            lemma_variant_count_grows(fs, k + 1, fs.len() as int);
        }
        let mut vs = fun_name_variants(&functions[k].0, functions[k].1.len());
        assert(names_v(vs@).len() == vs@.len());
        assert(vs@.len() == fs[k as int].1@.len());
        let ghost fn0 = fun_names@;
        let ghost vs0 = vs@;
        fun_names.append(&mut vs);
        assert(names_v(fun_names@) =~= names_v(fn0) + names_v(vs0));
        k = k + 1;
    }
    let ghost ctx = EmCtx {
        params: Seq::empty(),
        globals: program_globals(t0.global_expressions@),
        olds: program_olds(t0.global_expressions@),
        structs: struct_names(t0.structures@),
    };
    proof {
        assert(names_v(emitter.global_vars@) =~= Seq::<Seq<char>>::empty());
        assert(pairs_v(emitter.old_global_vars@) =~= Seq::<(Seq<char>, Seq<char>)>::empty());
        assert(emitter.locals() =~= Seq::<Seq<char>>::empty());
    }
    let ghost fnv = names_v(fun_names@);
    assert(fnv == fun_names_of(fs, fs.len() as int));
    let res = emitter.emit_entrypoint(fun_names, global_expressions);
    proof {
        assert(names_v(emitter.current_params@) =~= Seq::<Seq<char>>::empty());
        assert(emitter.ctx() == ctx);
    }
    let (globals, fun) = match res {
        Ok(x) => x,
        Err(m) => return Err(m),
    };
    assert(!(entry_emitted(t0) is Fail));
    proof {
        let j = choose|j: nat| fun.name@ == candidate("__start"@, j) && forall|i: nat| i < j ==> fnv.contains(#[trigger] candidate("__start"@, i));
        lemma_least_free("__start"@, fnv, j);
        assert(entry_decl_is(hir::Decl::Function(fun), t0, fun.name@));
    }
    let n0 = compiled.len();
    let ghost mut parts: Seq<Seq<hir::Decl>> = Seq::empty();
    let mut k: usize = 0;
    while k < functions.len()
        invariant
            k <= functions@.len(),
            fs == functions@,
            n0 <= compiled@.len(),
            forall|i: int| 0 <= i < fs.len() ==> (#[trigger] fs[i]).1@.len() >= 1 && one_generic(fs[i].1@),
            n0 == structures@.len(),
            forall|j: int| 0 <= j < n0 ==> struct_decl_is(#[trigger] compiled@[j], structures@[j].1),
            parts.len() == k,
            forall|i: int|
                0 <= i < k ==> name_emitted(ctx.globals, ctx.olds, ctx.structs, fs[i].0@, fs[i].1@, #[trigger] parts[i]),
            compiled@ == compiled@.take(n0 as int) + concat_all(parts, k as int),
            emitter.wf(),
            pairs_v(emitter.old_global_vars@) == ctx.olds,
            names_v(emitter.structure_names@) == ctx.structs,
            names_v(emitter.global_vars@) == ctx.globals,
            ctx.globals == program_globals(t0.global_expressions@),
            ctx.olds == program_olds(t0.global_expressions@),
            ctx.structs == struct_names(t0.structures@),
            fs == t0.functions@,
            t0 == t_ast,
            !(entry_emitted(t0) is Fail),
        decreases functions.len() - k,
    {
        let ghost before = compiled@;
        let res = emitter.emit_dynamic_dispatch(&functions[k].0, &functions[k].1);
        let mut more = match res {
            Ok(x) => x,
            Err(m) => {
                proof {
                    assert forall|i2: int, j: int| 0 <= i2 < k && 0 <= j < fs[i2].1@.len() implies #[trigger] fn_emitted(
                        ctx.globals,
                        ctx.olds,
                        ctx.structs,
                        fs[i2].1@[j],
                    ) is Done by {
                        lemma_name_emitted_done(ctx.globals, ctx.olds, ctx.structs, fs[i2].0@, fs[i2].1@, parts[i2], j);
                    }
                    assert(first_variant_failure(ctx.globals, ctx.olds, ctx.structs, fs[k as int].1@, m@));
                    assert(first_fn_failure(t0, m@));
                    if functions_emitted(t0) {
                        assert forall|j: int| 0 <= j < fs[k as int].1@.len() implies #[trigger] fn_emitted(ctx.globals, ctx.olds, ctx.structs, fs[k as int].1@[j]) is Done by {
                            assert(fn_emitted(program_globals(t0.global_expressions@), program_olds(t0.global_expressions@), struct_names(t0.structures@), t0.functions@[k as int].1@[j]) is Done);
                        }
                    }
                }
                return Err(m);
            },
        };
        let ghost more0 = more@;
        compiled.append(&mut more);
        assert forall|j: int| 0 <= j < n0 implies struct_decl_is(#[trigger] compiled@[j], structures@[j].1) by {
            assert(compiled@[j] == before[j]);
        }
        proof {
            let p0 = parts;
            parts = parts.push(more0);
            assert(concat_all(parts, k as int) == concat_all(p0, k as int)) by {
                lemma_concat_all_prefix(p0, parts, k as int);
            }
            assert(compiled@.take(n0 as int) =~= before.take(n0 as int));
            assert(compiled@ =~= compiled@.take(n0 as int) + concat_all(parts, k + 1));
            assert forall|i: int| 0 <= i < k + 1 implies name_emitted(ctx.globals, ctx.olds, ctx.structs, fs[i].0@, fs[i].1@, #[trigger] parts[i]) by {
                if i < k {
                    assert(parts[i] == p0[i]);
                }
            }
        }
        k = k + 1;
    }
    let entrypoint_name = fun.name.clone();
    let ghost before = compiled@;
    let ghost fd = hir::Decl::Function(fun);
    compiled.push(hir::Decl::Function(fun));
    assert forall|j: int| 0 <= j < n0 implies struct_decl_is(#[trigger] compiled@[j], structures@[j].1) by {
        assert(compiled@[j] == before[j]);
    }
    let src = hir::Source::new(globals, entrypoint_name, compiled);
    proof {
        assert(src.decls@.last() == fd);
        assert(src.decls@.take(n0 as int) =~= before.take(n0 as int));
        assert(src.decls@ =~= src.decls@.take(n0 as int) + concat_all(parts, parts.len() as int) + seq![src.decls@.last()]);
        assert(hir_laid_out(t0, src));
    }
    Ok(src)
}

} // verus!

verus! {

/// What a comparison of the source language means on two integers.
pub open spec fn source_comparison(op: BinOp, a: int, b: int) -> bool {
    match op {
        BinOp::Equ => a == b,
        BinOp::Neq => a != b,
        BinOp::Lt => a < b,
        BinOp::Leq => a <= b,
        BinOp::Gt => a > b,
        BinOp::Geq => a >= b,
        _ => false,
    }
}

/// An operator of the source reaches the LIR as an operator of the same
/// meaning: a comparison as the same comparison, giving a boolean; a sum,
/// difference or product as the same wrapping operation on integers; a
/// logical `&&` or `||` as an operation that gives the same truth value on
/// booleans (0 and 1).
pub proof fn law_operators_kept(op: BinOp, x: i64, y: i64)
    ensures
        (op is Equ || op is Neq || op is Lt || op is Leq || op is Gt || op is Geq) ==> {
            &&& bin_parts(hbin(op)).0 == 2
            &&& is_comparison(bin_parts(hbin(op)).1)
            &&& lir_comparison(bin_parts(hbin(op)).1, x as int, y as int) == source_comparison(op, x as int, y as int)
        },
        op is Plus ==> bin_parts(hbin(op)).0 == 1 && lir_arith(bin_parts(hbin(op)).1, x, y) == wrap64(x + y),
        op is Minus ==> bin_parts(hbin(op)).0 == 1 && lir_arith(bin_parts(hbin(op)).1, x, y) == wrap64(x - y),
        op is Times ==> bin_parts(hbin(op)).0 == 1 && lir_arith(bin_parts(hbin(op)).1, x, y) == wrap64(x * y),
        (op is And && 0 <= x <= 1 && 0 <= y <= 1) ==> bin_parts(hbin(op)).0 == 2 && (lir_arith(bin_parts(hbin(op)).1, x, y)
            == if x == 1 && y == 1 { 1int } else { 0int }),
        (op is Or && 0 <= x <= 1 && 0 <= y <= 1) ==> bin_parts(hbin(op)).0 == 2 && (lir_arith(bin_parts(hbin(op)).1, x, y)
            == if x == 1 || y == 1 { 1int } else { 0int }),
{
    if 0 <= x <= 1 && 0 <= y <= 1 {
        assert((x & y) == (if x == 1 && y == 1 { 1i64 } else { 0i64 })) by (bit_vector)
            requires
                0 <= x <= 1,
                0 <= y <= 1,
        ;
        assert((x | y) == (if x == 1 || y == 1 { 1i64 } else { 0i64 })) by (bit_vector)
            requires
                0 <= x <= 1,
                0 <= y <= 1,
        ;
    }
}

} // verus!
