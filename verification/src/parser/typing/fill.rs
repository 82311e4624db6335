use vstd::prelude::*;

use crate::automata::line_counter::Span;
use crate::automata::read_error::ReadError;
use crate::ir::lir_to_asm::{debug_quote, debug_quoted};
use crate::parser::ast::{
    type_text, BinOp, Block, Else, ElseVal, Exp, ExpVal, LocatedIdent, Param, Scope, StaticType, StaticTypeV, Structure,
    UnaryOp,
};
use crate::text::{append_item, cat3, comma_list, lemma_comma_list_step, str_eq};
use super::assign::{assigns_list, collect_all_assign_in_array, idents_v};
use super::data::{
    builtin_name, compatible, count_named, env_wf, find_key, fresh_locals, has_field, has_key, is_builtin_function,
    is_compatible, keys_distinct, key_pos, lemma_key_pos, stack_of, types_view, EnvVariable, FuncSignature, TypingContext,
};
use super::func_signatures::{
    ambiguous, callable_weights, clash_search, compute_ambiguous_signature, enriched, format_signature,
    is_this_call_ambiguous, pairs, params_view, signature_text, sigs_view,
};

verus! {

// ---------------------------------------------------------------------------
// The state that typing changes, and the tables it reads.

/// The environment as typing sees it: the variables of each name, the
/// innermost last, and the scopes.
#[verifier::ext_equal]
pub struct EnvV {
    pub stacks: spec_fn(Seq<char>) -> Seq<(StaticTypeV, Scope)>,
    pub previous: Scope,
    pub current: Scope,
}

/// The environment of a context.
pub open spec fn env_of(t: TypingContext) -> EnvV {
    EnvV { stacks: |k: Seq<char>| t.stack(k), previous: t.previous_scope, current: t.current_scope }
}

/// Entering a local scope.
pub open spec fn env_enter(v: EnvV) -> EnvV {
    EnvV { stacks: v.stacks, previous: v.current, current: Scope::Local }
}

/// Going back to the scope remembered.
pub open spec fn env_restore(v: EnvV) -> EnvV {
    EnvV { stacks: v.stacks, previous: v.previous, current: v.previous }
}

/// Binding a variable.
pub open spec fn env_push(v: EnvV, name: Seq<char>, x: (StaticTypeV, Scope)) -> EnvV {
    EnvV {
        stacks: |k: Seq<char>| if k == name { (v.stacks)(k).push(x) } else { (v.stacks)(k) },
        previous: v.previous,
        current: v.current,
    }
}

/// Unbinding the innermost variable of a name.
pub open spec fn env_pop(v: EnvV, name: Seq<char>) -> EnvV {
    EnvV {
        stacks: |k: Seq<char>|
            if k == name && (v.stacks)(k).len() > 0 {
                (v.stacks)(k).drop_last()
            } else {
                (v.stacks)(k)
            },
        previous: v.previous,
        current: v.current,
    }
}

/// How many of the identifiers, as values, have that name.
pub open spec fn count_v<'a>(ids: Seq<(Span<'a>, Seq<char>)>, k: Seq<char>) -> nat
    decreases ids.len(),
{
    if ids.len() == 0 {
        0
    } else {
        count_v(ids.drop_last(), k) + if ids.last().1 == k { 1nat } else { 0nat }
    }
}

/// Binding a local variable of type `Any` for each identifier.
pub open spec fn env_extend<'a>(v: EnvV, ids: Seq<(Span<'a>, Seq<char>)>) -> EnvV {
    EnvV {
        stacks: |k: Seq<char>| (v.stacks)(k) + fresh_locals(count_v(ids, k)),
        previous: v.previous,
        current: v.current,
    }
}

/// Unbinding a variable for each identifier.
pub open spec fn env_unextend<'a>(v: EnvV, ids: Seq<(Span<'a>, Seq<char>)>) -> EnvV {
    EnvV {
        stacks: |k: Seq<char>|
            (v.stacks)(k).take(
                if count_v(ids, k) <= (v.stacks)(k).len() {
                    (v.stacks)(k).len() - count_v(ids, k)
                } else {
                    0
                },
            ),
        previous: v.previous,
        current: v.current,
    }
}

/// The tables that typing reads and never changes.
pub struct Tables<'a> {
    pub functions: Seq<(String, Vec<FuncSignature>)>,
    pub structures: Seq<(String, Structure<'a>)>,
    pub mutable_fields: Seq<String>,
    pub all_fields: Seq<(String, StaticType)>,
    pub by_fields: Seq<(String, String)>,
}

/// The tables of a context.
pub open spec fn tables_of<'a>(t: TypingContext<'a>) -> Tables<'a> {
    Tables {
        functions: t.functions@,
        structures: t.structures@,
        mutable_fields: t.mutable_fields@,
        all_fields: t.all_fields@,
        by_fields: t.structure_name_by_fields@,
    }
}

/// A context ready for typing: every table names each entry once, every
/// function has a signature, and the environment is well formed.
pub open spec fn ready(t: TypingContext) -> bool {
    &&& t.wf()
    &&& keys_distinct(t.all_fields@)
    &&& keys_distinct(t.structure_name_by_fields@)
    &&& forall|i: int| #![trigger t.functions@[i]] 0 <= i < t.functions@.len() ==> t.functions@[i].1@.len() > 0
}

/// The signatures of a function.
pub open spec fn sigs_of<'a>(tab: Tables<'a>, name: Seq<char>) -> Seq<FuncSignature> {
    tab.functions[key_pos(tab.functions, name)].1@
}

/// The fields of a structure.
pub open spec fn struct_of<'a>(tab: Tables<'a>, name: Seq<char>) -> Structure<'a> {
    tab.structures[key_pos(tab.structures, name)].1
}

/// The type declared for a field.
pub open spec fn field_type<'a>(tab: Tables<'a>, name: Seq<char>) -> StaticTypeV {
    tab.all_fields[key_pos(tab.all_fields, name)].1@
}

/// Whether the field belongs to a mutable structure.
pub open spec fn mutable_field<'a>(tab: Tables<'a>, name: Seq<char>) -> bool {
    exists|i: int| #![trigger tab.mutable_fields[i]] 0 <= i < tab.mutable_fields.len() && tab.mutable_fields[i]@ == name
}

/// A value of this type may have a field of that name.
pub open spec fn field_known<'a>(tab: Tables<'a>, t: StaticTypeV, name: Seq<char>) -> bool {
    match t {
        StaticTypeV::Any => true,
        StaticTypeV::Struct(s) => has_field(struct_of(tab, s), name),
        _ => false,
    }
}

/// The type names a structure that the tables do not hold.
pub open spec fn struct_missing<'a>(tab: Tables<'a>, t: StaticTypeV) -> bool {
    t is Struct && !has_key(tab.structures, t->Struct_0)
}

/// The type is `Any` or `u`.
pub open spec fn any_or(t: StaticTypeV, u: StaticTypeV) -> bool {
    t == StaticTypeV::Any || t == u
}

/// The type can be compared by order.
pub open spec fn orderable(t: StaticTypeV) -> bool {
    t == StaticTypeV::Any || t == StaticTypeV::Int64 || t == StaticTypeV::Bool
}

// ---------------------------------------------------------------------------
// Messages.

/// How an operator is shown.
pub open spec fn bin_op_text(op: BinOp) -> Seq<char> {
    match op {
        BinOp::Or => "||"@,
        BinOp::And => "&&"@,
        BinOp::Equ => "=="@,
        BinOp::Neq => "!="@,
        BinOp::Lt => "<"@,
        BinOp::Leq => "≤"@,
        BinOp::Gt => ">"@,
        BinOp::Geq => "≥"@,
        BinOp::Plus => "+"@,
        BinOp::Minus => "-"@,
        BinOp::Times => "×"@,
        BinOp::Mod => "/"@,
        BinOp::Pow => "^"@,
    }
}

/// How a unary operator is shown.
pub open spec fn un_op_text(op: UnaryOp) -> Seq<char> {
    match op {
        UnaryOp::Neg => "-"@,
        UnaryOp::Not => "¬"@,
    }
}

/// How a type is written by Rust's `Debug` formatting.
pub open spec fn debug_type_text(t: StaticTypeV) -> Seq<char> {
    match t {
        StaticTypeV::Any => "Any"@,
        StaticTypeV::Nothing => "Nothing"@,
        StaticTypeV::Int64 => "Int64"@,
        StaticTypeV::Bool => "Bool"@,
        StaticTypeV::Str => "Str"@,
        StaticTypeV::Struct(s) => "Struct("@ + debug_quoted(s) + ")"@,
    }
}

pub open spec fn no_operation_text(op: Seq<char>, ts: Seq<StaticTypeV>) -> Seq<char> {
    "No such operation '"@ + op + "' for signature ("@ + signature_text(ts) + ")"@
}

pub open spec fn unknown_variable_text(name: Seq<char>) -> Seq<char> {
    "Compiler error, '"@ + name + "' was not found in the global typing context, unreachable variable. Environment was "@
}

pub open spec fn assign_mismatch_text(lhs: StaticTypeV, rhs: StaticTypeV) -> Seq<char> {
    "Expected on the lhs '"@ + type_text(lhs) + "' type, found: '"@ + type_text(rhs) + "' on the rhs"@
}

pub open spec fn field_absent_text(name: Seq<char>, t: StaticTypeV) -> Seq<char> {
    "Field '"@ + name + "' does not exist for the type '"@ + type_text(t) + "'"@
}

pub open spec fn field_nowhere_text(name: Seq<char>) -> Seq<char> {
    "Field '"@ + name + "' is not declared anywhere in any structure"@
}

pub open spec fn field_immutable_text(name: Seq<char>) -> Seq<char> {
    "Field '"@ + name + "' is not contained in a mutable structure, it cannot be assigned"@
}

pub open spec fn field_mismatch_text(found: StaticTypeV, declared: StaticTypeV) -> Seq<char> {
    "This expression has type '"@ + type_text(found) + "' but is incompatible with '"@ + debug_type_text(declared)
        + "' (declared in the structure)"@
}

pub open spec fn div_arity_text() -> Seq<char> {
    "`div` was called here with less or more than two arguments!"@
}

pub open spec fn no_callee_text(name: Seq<char>) -> Seq<char> {
    "There is no such function or structure named '"@ + name + "'"@
}

pub open spec fn arg_mismatch_text(expected: StaticTypeV, found: StaticTypeV) -> Seq<char> {
    "Incompatible types. Expected '"@ + type_text(expected) + "', found '"@ + type_text(found) + "'"@
}

/// The signature shown for an ambiguous call.
pub open spec fn ambiguity_sig_text(args: Seq<StaticTypeV>, fs: Seq<Seq<StaticTypeV>>) -> Seq<char> {
    match clash_search(args, fs, 0) {
        None => "no information on the signature"@,
        Some((i, j)) => signature_text(enriched(args, fs[i], fs[j])),
    }
}

pub open spec fn ambiguous_text(name: Seq<char>, sig: Seq<char>) -> Seq<char> {
    "Ambiguous call to function '"@ + name + " ("@ + sig + ")', cannot be resolve at runtime through dynamic dispatch"@
}

pub open spec fn no_variable_text(name: Seq<char>) -> Seq<char> {
    "No variable named '"@ + name + "' is declared in this scope"@
}

pub open spec fn no_field_in_type_text(name: Seq<char>, t: StaticTypeV) -> Seq<char> {
    "No field named '"@ + name + "' in type '"@ + type_text(t) + "'"@
}

pub open spec fn no_field_anywhere_text(name: Seq<char>) -> Seq<char> {
    "No field named '"@ + name + "' in any structure"@
}

pub open spec fn non_boolean_text(t: StaticTypeV) -> Seq<char> {
    "Non-boolean ("@ + type_text(t) + ") used in boolean context"@
}

// ---------------------------------------------------------------------------
// What typing gives.

/// What typing an expression (or a list, a block, an `else`) gives: the
/// environment after it and the types found; or the error met first, with
/// its region and message (where the flag is set, the message goes on with
/// a dump of the environment); or `Stuck` where the tables lack an entry
/// that typing reads without checking.
pub enum TyOut<'a> {
    Done(EnvV, Seq<StaticTypeV>),
    Fail(Span<'a>, Seq<char>, bool),
    Stuck,
}

/// The result of an operator on operands of types `ta` and `tb`, written at
/// `sa` and `sb`.
pub open spec fn bin_op_out<'a>(op: BinOp, sa: Span<'a>, sb: Span<'a>, ta: StaticTypeV, tb: StaticTypeV, env: EnvV) -> TyOut<'a> {
    let msg = no_operation_text(bin_op_text(op), seq![ta, tb]);
    match op {
        BinOp::Plus | BinOp::Minus | BinOp::Times | BinOp::Mod | BinOp::Pow => if !any_or(ta, StaticTypeV::Int64) {
            TyOut::Fail(sa, msg, false)
        } else if !any_or(tb, StaticTypeV::Int64) {
            TyOut::Fail(sb, msg, false)
        } else {
            TyOut::Done(env, seq![StaticTypeV::Int64])
        },
        BinOp::Equ | BinOp::Neq => TyOut::Done(env, seq![StaticTypeV::Bool]),
        BinOp::Lt | BinOp::Leq | BinOp::Gt | BinOp::Geq => if !orderable(ta) {
            TyOut::Fail(sa, msg, false)
        } else if !orderable(tb) {
            TyOut::Fail(sb, msg, false)
        } else {
            TyOut::Done(env, seq![StaticTypeV::Bool])
        },
        BinOp::And | BinOp::Or => if !any_or(ta, StaticTypeV::Bool) {
            TyOut::Fail(sa, msg, false)
        } else if !any_or(tb, StaticTypeV::Bool) {
            TyOut::Fail(sb, msg, false)
        } else {
            TyOut::Done(env, seq![StaticTypeV::Bool])
        },
    }
}

/// The types expected for the arguments of a call: the fields of a
/// structure, the parameters of a function with one signature, or `Any` for
/// each argument.
pub open spec fn entity_types<'a>(tab: Tables<'a>, name: Seq<char>, n: nat) -> Seq<StaticTypeV> {
    if has_key(tab.structures, name) {
        struct_of(tab, name).fields@.map_values(|p: Param<'a>| p.ty@)
    } else if has_key(tab.functions, name) && sigs_of(tab, name).len() == 1 {
        types_view(sigs_of(tab, name)[0].1@)
    } else {
        Seq::new(n, |i: int| StaticTypeV::Any)
    }
}

/// The type of a call to a user's function once its arguments have the types
/// `args`: the return type of a function with one signature; for an
/// overloaded function, an error if the call is ambiguous; otherwise `Any`.
pub open spec fn user_call_out<'a>(tab: Tables<'a>, env: EnvV, span: Span<'a>, name: Seq<char>, args: Seq<StaticTypeV>) -> TyOut<'a> {
    if has_key(tab.functions, name) && sigs_of(tab, name).len() == 1 {
        TyOut::Done(env, seq![sigs_of(tab, name)[0].0@])
    } else if has_key(tab.functions, name) {
        let sv = sigs_view(sigs_of(tab, name));
        if args.len() > 0x7fff_ffff || callable_weights(args, sv).len() == 0 {
            TyOut::Stuck
        } else if ambiguous(args, sv) {
            TyOut::Fail(span, ambiguous_text(name, ambiguity_sig_text(args, params_view(sigs_of(tab, name)))), false)
        } else {
            TyOut::Done(env, seq![StaticTypeV::Any])
        }
    } else {
        TyOut::Done(env, seq![StaticTypeV::Any])
    }
}

/// The types that expressions had before typing.
pub open spec fn old_types<'a>(s: Seq<Exp<'a>>) -> Seq<StaticTypeV> {
    s.map_values(|x: Exp<'a>| x.static_ty@)
}

/// Typing an expression.
pub open spec fn ty_exp<'a>(tab: Tables<'a>, env: EnvV, e: Exp<'a>) -> TyOut<'a>
    decreases e, 1int,
{
    proof {
        assert(decreases_to!(e => e.val));
    }
    match *e.val {
        ExpVal::Return(m) => match m {
            None => TyOut::Done(env, seq![StaticTypeV::Any]),
            Some(x) => match ty_exp(tab, env, x) {
                TyOut::Done(env2, _) => TyOut::Done(env2, seq![StaticTypeV::Any]),
                o => o,
            },
        },
        ExpVal::Assign(_, _) => ty_assign(tab, env, e),
        ExpVal::BinOp(op, a, b) => match ty_exp(tab, env, a) {
            TyOut::Done(env2, ta) => match ty_exp(tab, env2, b) {
                TyOut::Done(env3, tb) => bin_op_out(op, a.span, b.span, ta[0], tb[0], env3),
                o => o,
            },
            o => o,
        },
        ExpVal::UnaryOp(op, x) => match ty_exp(tab, env, x) {
            TyOut::Done(env2, tx) => match op {
                UnaryOp::Neg => if !any_or(tx[0], StaticTypeV::Int64) {
                    TyOut::Fail(x.span, no_operation_text(un_op_text(op), seq![tx[0]]), false)
                } else {
                    TyOut::Done(env2, seq![StaticTypeV::Int64])
                },
                UnaryOp::Not => if !any_or(tx[0], StaticTypeV::Bool) {
                    TyOut::Fail(x.span, no_operation_text(un_op_text(op), seq![tx[0]]), false)
                } else {
                    TyOut::Done(env2, seq![StaticTypeV::Bool])
                },
            },
            o => o,
        },
        ExpVal::Call(_, _) => ty_call(tab, env, e),
        ExpVal::Int(_) => TyOut::Done(env, seq![StaticTypeV::Int64]),
        ExpVal::Str(_) => TyOut::Done(env, seq![StaticTypeV::Str]),
        ExpVal::Bool(_) => TyOut::Done(env, seq![StaticTypeV::Bool]),
        ExpVal::LValue(_) => ty_lvalue(tab, env, e),
        ExpVal::Block(b) => match ty_block(tab, env, b) {
            TyOut::Done(env2, _) => TyOut::Done(env2, seq![StaticTypeV::Any]),
            o => o,
        },
        ExpVal::Mul(_, var) => if (env.stacks)(var@).len() == 0 {
            TyOut::Fail(e.span, no_variable_text(var@), false)
        } else {
            TyOut::Done(env, seq![StaticTypeV::Int64])
        },
        ExpVal::LMul(_, b) => match ty_block(tab, env, b) {
            TyOut::Done(env2, _) => TyOut::Done(env2, seq![StaticTypeV::Int64]),
            o => o,
        },
        ExpVal::RMul(x, var) => if (env.stacks)(var@).len() == 0 {
            TyOut::Fail(e.span, no_variable_text(var@), false)
        } else {
            match ty_exp(tab, env, x) {
                TyOut::Done(env2, _) => TyOut::Done(env2, seq![StaticTypeV::Int64]),
                o => o,
            }
        },
        ExpVal::If(c, b, u) => match ty_exp(tab, env, c) {
            TyOut::Done(env2, tc) => if !any_or(tc[0], StaticTypeV::Bool) {
                TyOut::Fail(c.span, non_boolean_text(tc[0]), false)
            } else {
                match ty_block(tab, env_enter(env2), b) {
                    TyOut::Done(env3, tb) => match ty_else(tab, env_restore(env3), u) {
                        TyOut::Done(env4, tu) => TyOut::Done(
                            env4,
                            seq![if tb[0] != tu[0] { StaticTypeV::Any } else { tb[0] }],
                        ),
                        o => o,
                    },
                    o => o,
                }
            },
            o => o,
        },
        ExpVal::For(_, _, _) => ty_for(tab, env, e),
        ExpVal::While(c, b) => match ty_exp(tab, env, c) {
            TyOut::Done(env2, tc) => if any_or(tc[0], StaticTypeV::Bool) {
                let ids = assigns_list(b.val@, b.val@.len() as int);
                match ty_block(tab, env_enter(env_extend(env2, ids)), b) {
                    TyOut::Done(env3, _) => TyOut::Done(env_unextend(env_restore(env3), ids), seq![StaticTypeV::Nothing]),
                    o => o,
                }
            } else {
                TyOut::Fail(c.span, non_boolean_text(tc[0]), false)
            },
            o => o,
        },
    }
}

/// What the assignment to a field of a value of type `t` meets before the
/// value assigned is typed: the field must exist for the type, belong to
/// some structure, and to a mutable one.
pub open spec fn prefix_err<'a>(tab: Tables<'a>, t: StaticTypeV, name: Seq<char>, span: Span<'a>) -> Option<(Span<'a>, Seq<char>)> {
    if !field_known(tab, t, name) {
        Some((span, field_absent_text(name, t)))
    } else if t == StaticTypeV::Any && !has_key(tab.by_fields, name) {
        Some((span, field_nowhere_text(name)))
    } else if !mutable_field(tab, name) {
        Some((span, field_immutable_text(name)))
    } else {
        None
    }
}

/// Typing an assignment.
pub open spec fn ty_assign<'a>(tab: Tables<'a>, env: EnvV, e: Exp<'a>) -> TyOut<'a>
    decreases e, 0int,
{
    proof {
        assert(decreases_to!(e => e.val));
    }
    match *e.val {
        ExpVal::Assign(lv, x) => match lv.in_exp {
            None => match ty_simple_assign(tab, env, lv, x) {
                TyOut::Done(env2, _) => TyOut::Done(env2, seq![e.static_ty@]),
                o => o,
            },
            Some(p) => match ty_exp(tab, env, p) {
                TyOut::Done(env2, tp) => {
                    let t = tp[0];
                    let name = lv.name@;
                    if struct_missing(tab, t) {
                        TyOut::Stuck
                    } else if let Some((sp, msg)) = prefix_err(tab, t, name, lv.span) {
                        TyOut::Fail(sp, msg, false)
                    } else {
                        match ty_exp(tab, env2, x) {
                            TyOut::Done(env3, tx) => if !has_key(tab.all_fields, name) {
                                TyOut::Stuck
                            } else if !compatible(field_type(tab, name), tx[0]) {
                                TyOut::Fail(x.span, field_mismatch_text(tx[0], field_type(tab, name)), false)
                            } else {
                                TyOut::Done(env3, seq![e.static_ty@])
                            },
                            o => o,
                        }
                    }
                },
                o => o,
            },
        },
        _ => TyOut::Stuck,
    }
}

/// Typing the assignment of `x` to a variable: the variable must be bound,
/// with a type compatible with that of `x`.
pub open spec fn ty_simple_assign<'a>(tab: Tables<'a>, env: EnvV, lv: crate::parser::ast::LValue<'a>, x: Exp<'a>) -> TyOut<'a>
    decreases x, 2int,
{
    match ty_exp(tab, env, x) {
        TyOut::Done(env2, tx) => {
            let st = (env2.stacks)(lv.name@);
            if st.len() == 0 {
                TyOut::Fail(lv.span, unknown_variable_text(lv.name@), true)
            } else if !compatible(st.last().0, tx[0]) {
                TyOut::Fail(x.span, assign_mismatch_text(st.last().0, tx[0]), false)
            } else {
                TyOut::Done(env2, Seq::empty())
            }
        },
        o => o,
    }
}

/// Typing a call.
pub open spec fn ty_call<'a>(tab: Tables<'a>, env: EnvV, e: Exp<'a>) -> TyOut<'a>
    decreases e, 0int,
{
    proof {
        assert(decreases_to!(e => e.val));
    }
    match *e.val {
        ExpVal::Call(name, args) => {
            proof {
                assert(decreases_to!(args => args@));
            }
            if name@ == "div"@ {
                if args@.len() != 2 {
                    TyOut::Fail(e.span, div_arity_text(), false)
                } else {
                    match ty_exp(tab, env, args@[0]) {
                        TyOut::Done(env2, t0) => match ty_exp(tab, env2, args@[1]) {
                            TyOut::Done(env3, t1) => TyOut::Done(
                                env3,
                                seq![
                                    if any_or(t0[0], StaticTypeV::Int64) && any_or(t1[0], StaticTypeV::Int64) {
                                        StaticTypeV::Int64
                                    } else {
                                        e.static_ty@
                                    },
                                ],
                            ),
                            o => o,
                        },
                        o => o,
                    }
                }
            } else if name@ == "print"@ {
                match ty_list(tab, env, args@, args@.len() as int) {
                    TyOut::Done(env2, _) => TyOut::Done(env2, seq![StaticTypeV::Nothing]),
                    o => o,
                }
            } else if !builtin_name(name@) && !has_key(tab.structures, name@) && !has_key(tab.functions, name@) {
                TyOut::Fail(e.span, no_callee_text(name@), false)
            } else {
                let expected = entity_types(tab, name@, args@.len());
                let m = pairs(args@.len() as int, expected.len() as int);
                match ty_args(tab, env, args@, expected, m) {
                    TyOut::Done(env2, ts) => user_call_out(
                        tab,
                        env2,
                        e.span,
                        name@,
                        ts + old_types(args@.subrange(m, args@.len() as int)),
                    ),
                    o => o,
                }
            }
        },
        _ => TyOut::Stuck,
    }
}

/// Typing a place that is read.
pub open spec fn ty_lvalue<'a>(tab: Tables<'a>, env: EnvV, e: Exp<'a>) -> TyOut<'a>
    decreases e, 0int,
{
    proof {
        assert(decreases_to!(e => e.val));
    }
    match *e.val {
        ExpVal::LValue(lv) => match lv.in_exp {
            None => {
                let st = (env.stacks)(lv.name@);
                if st.len() == 0 {
                    TyOut::Fail(lv.span, no_variable_text(lv.name@), false)
                } else {
                    TyOut::Done(env, seq![st.last().0])
                }
            },
            Some(x) => match ty_exp(tab, env, x) {
                TyOut::Done(env2, tx) => {
                    let t = tx[0];
                    let name = lv.name@;
                    if struct_missing(tab, t) {
                        TyOut::Stuck
                    } else if !field_known(tab, t, name) {
                        TyOut::Fail(lv.span, no_field_in_type_text(name, t), false)
                    } else if !has_key(tab.all_fields, name) {
                        TyOut::Fail(lv.span, no_field_anywhere_text(name), false)
                    } else if t == StaticTypeV::Any && !has_key(tab.by_fields, name) {
                        TyOut::Stuck
                    } else {
                        TyOut::Done(env2, seq![field_type(tab, name)])
                    }
                },
                o => o,
            },
        },
        _ => TyOut::Stuck,
    }
}

/// Typing a `for` loop: its bounds, then its body with the variables it
/// assigns and the loop variable bound locally.
pub open spec fn ty_for<'a>(tab: Tables<'a>, env: EnvV, e: Exp<'a>) -> TyOut<'a>
    decreases e, 0int,
{
    proof {
        assert(decreases_to!(e => e.val));
    }
    match *e.val {
        ExpVal::For(ident, range, b) => {
            proof {
                assert(decreases_to!(range => range.start));
                assert(decreases_to!(range => range.end));
            }
            match ty_exp(tab, env, range.start) {
                TyOut::Done(env2, _) => match ty_exp(tab, env2, range.end) {
                    TyOut::Done(env3, _) => {
                        let ids = assigns_list(b.val@, b.val@.len() as int);
                        let env4 = env_enter(env_push(env_extend(env3, ids), ident.name@, (StaticTypeV::Int64, Scope::Local)));
                        match ty_block(tab, env4, b) {
                            TyOut::Done(env5, _) => TyOut::Done(
                                env_unextend(env_pop(env_restore(env5), ident.name@), ids),
                                seq![e.static_ty@],
                            ),
                            o => o,
                        }
                    },
                    o => o,
                },
                o => o,
            }
        },
        _ => TyOut::Stuck,
    }
}

/// Typing the first `k` expressions of a list, in order.
pub open spec fn ty_list<'a>(tab: Tables<'a>, env: EnvV, s: Seq<Exp<'a>>, k: int) -> TyOut<'a>
    decreases s, k,
{
    if k <= 0 || k > s.len() {
        TyOut::Done(env, Seq::empty())
    } else {
        match ty_list(tab, env, s, k - 1) {
            TyOut::Done(env2, ts) => match ty_exp(tab, env2, s[k - 1]) {
                TyOut::Done(env3, t) => TyOut::Done(env3, ts + t),
                o => o,
            },
            o => o,
        }
    }
}

/// Typing the first `k` arguments of a call, each against the type expected
/// for it.
pub open spec fn ty_args<'a>(tab: Tables<'a>, env: EnvV, s: Seq<Exp<'a>>, expected: Seq<StaticTypeV>, k: int) -> TyOut<'a>
    decreases s, k,
{
    if k <= 0 || k > s.len() || k > expected.len() {
        TyOut::Done(env, Seq::empty())
    } else {
        match ty_args(tab, env, s, expected, k - 1) {
            TyOut::Done(env2, ts) => match ty_exp(tab, env2, s[k - 1]) {
                TyOut::Done(env3, t) => if !compatible(t[0], expected[k - 1]) {
                    TyOut::Fail(s[k - 1].span, arg_mismatch_text(expected[k - 1], t[0]), false)
                } else {
                    TyOut::Done(env3, ts + t)
                },
                o => o,
            },
            o => o,
        }
    }
}

/// Typing a block: its expressions in order; a block that ends with a
/// semicolon takes the type of its last expression (`Nothing` when empty),
/// another keeps its type.
pub open spec fn ty_block<'a>(tab: Tables<'a>, env: EnvV, b: Block<'a>) -> TyOut<'a>
    decreases b, 1int,
{
    proof {
        assert(decreases_to!(b => b.val));
        assert(decreases_to!(b.val => b.val@));
    }
    match ty_list(tab, env, b.val@, b.val@.len() as int) {
        TyOut::Done(env2, ts) => TyOut::Done(
            env2,
            seq![
                if b.trailing_semicolon {
                    if ts.len() == 0 {
                        StaticTypeV::Nothing
                    } else {
                        ts.last()
                    }
                } else {
                    b.static_ty@
                },
            ],
        ),
        o => o,
    }
}

/// Typing the branches of an `else`, each block in a local scope; the type
/// is that of the branches where they agree, else `Any`.
pub open spec fn ty_else<'a>(tab: Tables<'a>, env: EnvV, u: Else<'a>) -> TyOut<'a>
    decreases u, 1int,
{
    proof {
        assert(decreases_to!(u => u.val));
    }
    match *u.val {
        ElseVal::End => TyOut::Done(env, seq![StaticTypeV::Nothing]),
        ElseVal::Else(b) => match ty_block(tab, env_enter(env), b) {
            TyOut::Done(env2, tb) => TyOut::Done(env_restore(env2), tb),
            o => o,
        },
        ElseVal::ElseIf(c, b, rest) => match ty_exp(tab, env, c) {
            TyOut::Done(env2, _) => match ty_block(tab, env_enter(env2), b) {
                TyOut::Done(env3, tb) => match ty_else(tab, env_restore(env3), rest) {
                    TyOut::Done(env4, tr) => TyOut::Done(env4, seq![if tr[0] == tb[0] { tb[0] } else { StaticTypeV::Any }]),
                    o => o,
                },
                o => o,
            },
            o => o,
        },
    }
}

// ---------------------------------------------------------------------------
// What typing writes into the tree.

/// The type a value gets where a field `name` is read or assigned in it: a
/// value of type `Any` takes the type of the structure that declares the
/// field.
pub open spec fn refined<'a>(tab: Tables<'a>, t: StaticTypeV, name: Seq<char>) -> StaticTypeV {
    if t == StaticTypeV::Any && has_key(tab.by_fields, name) {
        StaticTypeV::Struct(tab.by_fields[key_pos(tab.by_fields, name)].1@)
    } else {
        t
    }
}

/// `f` is `e` once typed in `env`: the same tree, with the type that typing
/// gives each node and, on each variable read, the scope of its binding.
pub open spec fn annotated<'a>(tab: Tables<'a>, env: EnvV, e: Exp<'a>, f: Exp<'a>) -> bool
    decreases e, 3int,
{
    &&& shaped(tab, env, e, f)
    &&& f.static_ty@ == ty_exp(tab, env, e)->Done_1[0]
}

/// `f` is `e` once typed in `env`, but for the type of `f` itself.
pub open spec fn shaped<'a>(tab: Tables<'a>, env: EnvV, e: Exp<'a>, f: Exp<'a>) -> bool
    decreases e, 2int,
{
    proof {
        assert(decreases_to!(e => e.val));
    }
    &&& f.span == e.span
    &&& match *e.val {
        ExpVal::Return(None) => *f.val == *e.val,
        ExpVal::Return(Some(x)) => (*f.val matches ExpVal::Return(Some(x2)) && annotated(tab, env, x, x2)),
        ExpVal::Assign(lv, x) => match lv.in_exp {
            None => (*f.val matches ExpVal::Assign(lv2, x2) && lv2 == lv && annotated(tab, env, x, x2)),
            Some(p) => {
                let tp = ty_exp(tab, env, p)->Done_1[0];
                let env2 = ty_exp(tab, env, p)->Done_0;
                (*f.val matches ExpVal::Assign(lv2, x2) && lv2.span == lv.span && lv2.scope == lv.scope && lv2.name
                    == lv.name && annotated(tab, env2, x, x2) && (lv2.in_exp matches Some(p2) && shaped(tab, env, p, p2)
                    && p2.static_ty@ == refined(tab, tp, lv.name@)))
            },
        },
        ExpVal::BinOp(op, a, b) => (*f.val matches ExpVal::BinOp(op2, a2, b2) && op2 == op && annotated(tab, env, a, a2)
            && annotated(tab, ty_exp(tab, env, a)->Done_0, b, b2)),
        ExpVal::UnaryOp(op, x) => (*f.val matches ExpVal::UnaryOp(op2, x2) && op2 == op && annotated(tab, env, x, x2)),
        ExpVal::Call(name, args) => {
            proof {
                assert(decreases_to!(args => args@));
            }
            (*f.val matches ExpVal::Call(name2, args2) && name2 == name && args2@.len() == args@.len() && if name@
                == "div"@ {
                args@.len() == 2 && annotated(tab, env, args@[0], args2@[0]) && annotated(
                    tab,
                    ty_exp(tab, env, args@[0])->Done_0,
                    args@[1],
                    args2@[1],
                )
            } else if name@ == "print"@ {
                list_ann(tab, env, args@, args2@)
            } else {
                let ex = entity_types(tab, name@, args@.len());
                let m = pairs(args@.len() as int, ex.len() as int);
                args_ann(tab, env, args@, ex, args2@.take(m)) && args2@.skip(m) == args@.skip(m)
            })
        },
        ExpVal::Int(_) | ExpVal::Str(_) | ExpVal::Bool(_) | ExpVal::Mul(_, _) => *f.val == *e.val,
        ExpVal::LValue(lv) => match lv.in_exp {
            None => (*f.val matches ExpVal::LValue(lv2) && lv2.span == lv.span && lv2.name == lv.name && lv2.in_exp is None
                && lv2.scope == (env.stacks)(lv.name@).last().1),
            Some(x) => {
                let tx = ty_exp(tab, env, x)->Done_1[0];
                (*f.val matches ExpVal::LValue(lv2) && lv2.span == lv.span && lv2.name == lv.name && lv2.scope
                    == Scope::Local && (lv2.in_exp matches Some(x2) && shaped(tab, env, x, x2) && x2.static_ty@
                    == refined(tab, tx, lv.name@)))
            },
        },
        ExpVal::Block(b) => (*f.val matches ExpVal::Block(b2) && block_ann(tab, env, b, b2)),
        ExpVal::LMul(n, b) => (*f.val matches ExpVal::LMul(n2, b2) && n2 == n && block_ann(tab, env, b, b2)),
        ExpVal::RMul(x, var) => (*f.val matches ExpVal::RMul(x2, var2) && var2 == var && annotated(tab, env, x, x2)),
        ExpVal::If(c, b, u) => {
            let env2 = ty_exp(tab, env, c)->Done_0;
            let env3 = ty_block(tab, env_enter(env2), b)->Done_0;
            (*f.val matches ExpVal::If(c2, b2, u2) && annotated(tab, env, c, c2) && block_ann(tab, env_enter(env2), b, b2)
                && else_ann(tab, env_restore(env3), u, u2))
        },
        ExpVal::For(ident, range, b) => {
            proof {
                assert(decreases_to!(range => range.start));
                assert(decreases_to!(range => range.end));
            }
            let env2 = ty_exp(tab, env, range.start)->Done_0;
            let env3 = ty_exp(tab, env2, range.end)->Done_0;
            let ids = assigns_list(b.val@, b.val@.len() as int);
            let env4 = env_enter(env_push(env_extend(env3, ids), ident.name@, (StaticTypeV::Int64, Scope::Local)));
            (*f.val matches ExpVal::For(i2, r2, b2) && i2 == ident && r2.span == range.span && annotated(
                tab,
                env,
                range.start,
                r2.start,
            ) && annotated(tab, env2, range.end, r2.end) && block_ann(tab, env4, b, b2))
        },
        ExpVal::While(c, b) => {
            let env2 = ty_exp(tab, env, c)->Done_0;
            let ids = assigns_list(b.val@, b.val@.len() as int);
            (*f.val matches ExpVal::While(c2, b2) && annotated(tab, env, c, c2) && block_ann(
                tab,
                env_enter(env_extend(env2, ids)),
                b,
                b2,
            ))
        },
    }
}

/// `s2` is the first expressions of `s` once typed in order from `env`.
pub open spec fn list_ann<'a>(tab: Tables<'a>, env: EnvV, s: Seq<Exp<'a>>, s2: Seq<Exp<'a>>) -> bool
    decreases s, s2.len(),
{
    if s2.len() == 0 {
        true
    } else if s2.len() > s.len() {
        false
    } else {
        let n = s2.len() - 1;
        list_ann(tab, env, s, s2.drop_last()) && annotated(tab, ty_list(tab, env, s, n)->Done_0, s[n], s2[n])
    }
}

/// `s2` is the first arguments of `s` once typed in order from `env`
/// against the types `ex`.
pub open spec fn args_ann<'a>(tab: Tables<'a>, env: EnvV, s: Seq<Exp<'a>>, ex: Seq<StaticTypeV>, s2: Seq<Exp<'a>>) -> bool
    decreases s, s2.len(),
{
    if s2.len() == 0 {
        true
    } else if s2.len() > s.len() {
        false
    } else {
        let n = s2.len() - 1;
        args_ann(tab, env, s, ex, s2.drop_last()) && annotated(tab, ty_args(tab, env, s, ex, n)->Done_0, s[n], s2[n])
    }
}

/// `b2` is the block `b` once typed in `env`.
pub open spec fn block_ann<'a>(tab: Tables<'a>, env: EnvV, b: Block<'a>, b2: Block<'a>) -> bool
    decreases b, 1int,
{
    proof {
        assert(decreases_to!(b => b.val));
        assert(decreases_to!(b.val => b.val@));
    }
    &&& b2.span == b.span
    &&& b2.trailing_semicolon == b.trailing_semicolon
    &&& b2.static_ty@ == ty_block(tab, env, b)->Done_1[0]
    &&& b2.val@.len() == b.val@.len()
    &&& list_ann(tab, env, b.val@, b2.val@)
}

/// `u2` is the `else` branch `u` once typed in `env`.
pub open spec fn else_ann<'a>(tab: Tables<'a>, env: EnvV, u: Else<'a>, u2: Else<'a>) -> bool
    decreases u, 1int,
{
    proof {
        assert(decreases_to!(u => u.val));
    }
    &&& u2.span == u.span
    &&& match *u.val {
        ElseVal::End => *u2.val == ElseVal::End,
        ElseVal::Else(b) => (*u2.val matches ElseVal::Else(b2) && block_ann(tab, env_enter(env), b, b2)),
        ElseVal::ElseIf(c, b, rest) => {
            let env2 = ty_exp(tab, env, c)->Done_0;
            let env3 = ty_block(tab, env_enter(env2), b)->Done_0;
            (*u2.val matches ElseVal::ElseIf(c2, b2, r2) && annotated(tab, env, c, c2) && block_ann(
                tab,
                env_enter(env2),
                b,
                b2,
            ) && else_ann(tab, env_restore(env3), rest, r2))
        },
    }
}

/// The error returned matches the outcome, or there is none and the outcome
/// is a success.
pub open spec fn outcome_matches<'a>(r: Result<(), ReadError<'a>>, o: TyOut<'a>) -> bool {
    match r {
        Ok(_) => o is Done,
        Err(e) => match o {
            TyOut::Fail(span, msg, dump) => e.spec_span() == span && if dump {
                msg.is_prefix_of(e.spec_message())
            } else {
                e.spec_message() == msg
            },
            _ => false,
        },
    }
}

/// Two contexts hold the same tables.
pub open spec fn keeps_tables<'a>(a: TypingContext<'a>, b: TypingContext<'a>) -> bool {
    &&& tables_of(a) == tables_of(b)
    &&& a.known_types == b.known_types
}

proof fn lemma_annotated<'a>(tab: Tables<'a>, env: EnvV, e: Exp<'a>, f: Exp<'a>)
    requires
        shaped(tab, env, e, f),
        f.static_ty@ == ty_exp(tab, env, e)->Done_1[0],
    ensures
        annotated(tab, env, e, f),
{
}

proof fn lemma_shaped_retyped<'a>(tab: Tables<'a>, env: EnvV, e: Exp<'a>, f: Exp<'a>, g: Exp<'a>)
    requires
        shaped(tab, env, e, f),
        g.span == f.span,
        g.val == f.val,
    ensures
        shaped(tab, env, e, g),
{
}

proof fn lemma_count_v<'a>(ids: Seq<LocatedIdent<'a>>, k: Seq<char>)
    ensures
        count_named(ids, k) == count_v(idents_v(ids), k),
    decreases ids.len(),
{
    if ids.len() > 0 {
        lemma_count_v(ids.drop_last(), k);
        assert(idents_v(ids).drop_last() =~= idents_v(ids.drop_last()));
    }
}

pub(crate) fn tcx_push<'a>(tcx: &mut TypingContext<'a>, ident: &LocatedIdent<'a>, ty: StaticType, scope: Scope)
    requires
        ready(*old(tcx)),
    ensures
        ready(*final(tcx)),
        keeps_tables(*final(tcx), *old(tcx)),
        env_of(*final(tcx)) == env_push(env_of(*old(tcx)), ident.name@, (ty@, scope)),
{
    let ghost before = *tcx;
    let ghost x = (ty@, scope);
    tcx.push_to_env(ident, ty, scope);
    assert(env_of(*tcx) =~= env_push(env_of(before), ident.name@, x));
}

pub(crate) fn tcx_pop<'a>(tcx: &mut TypingContext<'a>, ident: &LocatedIdent<'a>)
    requires
        ready(*old(tcx)),
    ensures
        ready(*final(tcx)),
        keeps_tables(*final(tcx), *old(tcx)),
        env_of(*final(tcx)) == env_pop(env_of(*old(tcx)), ident.name@),
{
    let ghost before = *tcx;
    tcx.pop_from_env(ident);
    assert(env_of(*tcx) =~= env_pop(env_of(before), ident.name@));
}

pub(crate) fn tcx_extend<'a>(tcx: &mut TypingContext<'a>, ids: Vec<LocatedIdent<'a>>) -> (r: Vec<LocatedIdent<'a>>)
    requires
        ready(*old(tcx)),
    ensures
        r == ids,
        ready(*final(tcx)),
        keeps_tables(*final(tcx), *old(tcx)),
        env_of(*final(tcx)) == env_extend(env_of(*old(tcx)), idents_v(ids@)),
{
    let ghost before = *tcx;
    let ghost ids0 = ids@;
    let r = tcx.extend_local_env(ids);
    assert forall|k: Seq<char>| count_named(ids0, k) == count_v(idents_v(ids0), k) by {
        lemma_count_v(ids0, k);
    }
    assert(env_of(*tcx) =~= env_extend(env_of(before), idents_v(ids0)));
    r
}

pub(crate) fn tcx_unextend<'a>(tcx: &mut TypingContext<'a>, ids: Vec<LocatedIdent<'a>>)
    requires
        ready(*old(tcx)),
    ensures
        ready(*final(tcx)),
        keeps_tables(*final(tcx), *old(tcx)),
        env_of(*final(tcx)) == env_unextend(env_of(*old(tcx)), idents_v(ids@)),
{
    let ghost before = *tcx;
    let ghost ids0 = ids@;
    tcx.unextend_env(ids);
    assert forall|k: Seq<char>| count_named(ids0, k) == count_v(idents_v(ids0), k) by {
        lemma_count_v(ids0, k);
    }
    assert(env_of(*tcx) =~= env_unextend(env_of(before), idents_v(ids0)));
}

fn tcx_enter<'a>(tcx: &mut TypingContext<'a>)
    requires
        ready(*old(tcx)),
    ensures
        ready(*final(tcx)),
        keeps_tables(*final(tcx), *old(tcx)),
        env_of(*final(tcx)) == env_enter(env_of(*old(tcx))),
{
    let ghost before = *tcx;
    tcx.enter_in_local_scope();
    assert(env_of(*tcx) =~= env_enter(env_of(before)));
}

fn tcx_restore<'a>(tcx: &mut TypingContext<'a>)
    requires
        ready(*old(tcx)),
    ensures
        ready(*final(tcx)),
        keeps_tables(*final(tcx), *old(tcx)),
        env_of(*final(tcx)) == env_restore(env_of(*old(tcx))),
{
    let ghost before = *tcx;
    tcx.restore_previous_scope();
    assert(env_of(*tcx) =~= env_restore(env_of(before)));
}

fn fail<'a, T>(span: Span<'a>, message: String) -> (r: Result<T, ReadError<'a>>)
    ensures
        r is Err,
        r->Err_0.spec_span() == span,
        r->Err_0.spec_message() == message@,
{
    Err(ReadError::from((span, message)))
}

fn any_or_ty(t: &StaticType, u: &StaticType) -> (r: bool)
    ensures
        r == any_or(t@, u@),
{
    match t {
        StaticType::Any => true,
        _ => t.same(u),
    }
}

fn orderable_ty(t: &StaticType) -> (r: bool)
    ensures
        r == orderable(t@),
{
    match t {
        StaticType::Any | StaticType::Int64 | StaticType::Bool => true,
        _ => false,
    }
}

fn bin_op_str(op: BinOp) -> (r: String)
    ensures
        r@ == bin_op_text(op),
{
    proof {
        reveal_strlit("||");
        reveal_strlit("&&");
        reveal_strlit("==");
        reveal_strlit("!=");
        reveal_strlit("<");
        reveal_strlit("≤");
        reveal_strlit(">");
        reveal_strlit("≥");
        reveal_strlit("+");
        reveal_strlit("-");
        reveal_strlit("×");
        reveal_strlit("/");
        reveal_strlit("^");
    }
    match op {
        BinOp::Or => String::from_str("||"),
        BinOp::And => String::from_str("&&"),
        BinOp::Equ => String::from_str("=="),
        BinOp::Neq => String::from_str("!="),
        BinOp::Lt => String::from_str("<"),
        BinOp::Leq => String::from_str("≤"),
        BinOp::Gt => String::from_str(">"),
        BinOp::Geq => String::from_str("≥"),
        BinOp::Plus => String::from_str("+"),
        BinOp::Minus => String::from_str("-"),
        BinOp::Times => String::from_str("×"),
        BinOp::Mod => String::from_str("/"),
        BinOp::Pow => String::from_str("^"),
    }
}

fn un_op_str(op: UnaryOp) -> (r: String)
    ensures
        r@ == un_op_text(op),
{
    proof {
        reveal_strlit("-");
        reveal_strlit("¬");
    }
    match op {
        UnaryOp::Neg => String::from_str("-"),
        UnaryOp::Not => String::from_str("¬"),
    }
}

pub(crate) fn debug_type(t: &StaticType) -> (r: String)
    ensures
        r@ == debug_type_text(t@),
{
    proof {
        reveal_strlit("Any");
        reveal_strlit("Nothing");
        reveal_strlit("Int64");
        reveal_strlit("Bool");
        reveal_strlit("Str");
        reveal_strlit("Struct(");
        reveal_strlit(")");
    }
    match t {
        StaticType::Any => String::from_str("Any"),
        StaticType::Nothing => String::from_str("Nothing"),
        StaticType::Int64 => String::from_str("Int64"),
        StaticType::Bool => String::from_str("Bool"),
        StaticType::Str => String::from_str("Str"),
        StaticType::Struct(s) => {
            let q = debug_quote(s.as_str());
            cat3("Struct(", q.as_str(), ")")
        },
    }
}

fn no_operation_msg(op: &str, ts: Vec<StaticType>) -> (r: String)
    ensures
        r@ == no_operation_text(op@, types_view(ts@)),
{
    proof {
        reveal_strlit("No such operation '");
        reveal_strlit("' for signature (");
        reveal_strlit(")");
    }
    let sig = format_signature(ts);
    let mut m = cat3("No such operation '", op, "' for signature (");
    m.append(sig.as_str());
    m.append(")");
    m
}

/// How a scope is written by Rust's `Debug` formatting.
pub open spec fn scope_debug_text(s: Scope) -> Seq<char> {
    match s {
        Scope::Global => "Global"@,
        Scope::Local => "Local"@,
    }
}

/// How a variable of the environment is written by Rust's `Debug`
/// formatting.
pub open spec fn env_var_debug_text(v: EnvVariable) -> Seq<char> {
    "EnvVariable { ty: "@ + debug_type_text(v.ty@) + ", scope: "@ + scope_debug_text(v.scope) + " }"@
}

/// How the stack of one name is written by Rust's `Debug` formatting.
pub open spec fn env_entry_debug_text(e: (String, Vec<EnvVariable>)) -> Seq<char> {
    "("@ + debug_quoted(e.0@) + ", ["@ + comma_list(e.1@.map_values(|v: EnvVariable| env_var_debug_text(v))) + "])"@
}

/// How the environment is written by Rust's `Debug` formatting.
pub open spec fn env_debug_text(env: Seq<(String, Vec<EnvVariable>)>) -> Seq<char> {
    "["@ + comma_list(env.map_values(|e: (String, Vec<EnvVariable>)| env_entry_debug_text(e))) + "]"@
}

pub(crate) fn debug_scope(s: &Scope) -> (r: String)
    ensures
        r@ == scope_debug_text(*s),
{
    proof {
        reveal_strlit("Global");
        reveal_strlit("Local");
    }
    match s {
        Scope::Global => String::from_str("Global"),
        Scope::Local => String::from_str("Local"),
    }
}

fn debug_env_var(v: &EnvVariable) -> (r: String)
    ensures
        r@ == env_var_debug_text(*v),
{
    proof {
        reveal_strlit("EnvVariable { ty: ");
        reveal_strlit(", scope: ");
        reveal_strlit(" }");
    }
    let t = debug_type(&v.ty);
    let sc = debug_scope(&v.scope);
    let mut r = cat3("EnvVariable { ty: ", t.as_str(), ", scope: ");
    r.append(sc.as_str());
    r.append(" }");
    r
}

fn debug_env_entry(e: &(String, Vec<EnvVariable>)) -> (r: String)
    ensures
        r@ == env_entry_debug_text(*e),
{
    proof {
        reveal_strlit("(");
        reveal_strlit(", [");
        reveal_strlit("])");
    }
    let ghost items = e.1@.map_values(|v: EnvVariable| env_var_debug_text(v));
    let q = debug_quote(e.0.as_str());
    let mut r = cat3("(", q.as_str(), ", [");
    let ghost pre = r@;
    let mut i: usize = 0;
    while i < e.1.len()
        invariant
            i <= e.1@.len(),
            items == e.1@.map_values(|v: EnvVariable| env_var_debug_text(v)),
            r@ == pre + comma_list(items.take(i as int)),
        decreases e.1.len() - i,
    {
        let t = debug_env_var(&e.1[i]);
        proof {
            lemma_comma_list_step(items, i as int);
        }
        append_item(&mut r, i, t.as_str());
        i = i + 1;
    }
    assert(items.take(e.1@.len() as int) =~= items);
    r.append("])");
    r
}

/// The environment's own text, as Rust's `Debug` formatting writes it.
fn debug_env(env: &Vec<(String, Vec<EnvVariable>)>) -> (r: String)
    ensures
        r@ == env_debug_text(env@),
{
    proof {
        reveal_strlit("[");
        reveal_strlit("]");
    }
    let ghost items = env@.map_values(|e: (String, Vec<EnvVariable>)| env_entry_debug_text(e));
    let mut r = String::from_str("[");
    let mut i: usize = 0;
    while i < env.len()
        invariant
            i <= env@.len(),
            items == env@.map_values(|e: (String, Vec<EnvVariable>)| env_entry_debug_text(e)),
            r@ == "["@ + comma_list(items.take(i as int)),
        decreases env.len() - i,
    {
        let t = debug_env_entry(&env[i]);
        proof {
            lemma_comma_list_step(items, i as int);
        }
        append_item(&mut r, i, t.as_str());
        i = i + 1;
    }
    assert(items.take(env@.len() as int) =~= items);
    r.append("]");
    r
}

proof fn lemma_list_stays<'a>(tab: Tables<'a>, env: EnvV, s: Seq<Exp<'a>>, j: int, k: int)
    requires
        0 <= j <= k <= s.len(),
        !(ty_list(tab, env, s, j) is Done),
    ensures
        ty_list(tab, env, s, k) == ty_list(tab, env, s, j),
    decreases k - j,
{
    if k > j {
        lemma_list_stays(tab, env, s, j, k - 1);
    }
}

proof fn lemma_exp_len<'a>(tab: Tables<'a>, env: EnvV, e: Exp<'a>)
    ensures
        ty_exp(tab, env, e) is Done ==> ty_exp(tab, env, e)->Done_1.len() == 1,
{
    match *e.val {
        ExpVal::Assign(_, _) => {
            assert(ty_assign(tab, env, e) is Done ==> ty_assign(tab, env, e)->Done_1.len() == 1);
        },
        ExpVal::Call(_, _) => {
            assert(ty_call(tab, env, e) is Done ==> ty_call(tab, env, e)->Done_1.len() == 1);
        },
        ExpVal::LValue(_) => {
            assert(ty_lvalue(tab, env, e) is Done ==> ty_lvalue(tab, env, e)->Done_1.len() == 1);
        },
        ExpVal::For(_, _, _) => {
            assert(ty_for(tab, env, e) is Done ==> ty_for(tab, env, e)->Done_1.len() == 1);
        },
        _ => {},
    }
}

proof fn lemma_list_len<'a>(tab: Tables<'a>, env: EnvV, s: Seq<Exp<'a>>, k: int)
    requires
        0 <= k <= s.len(),
        ty_list(tab, env, s, k) is Done,
    ensures
        ty_list(tab, env, s, k)->Done_1.len() == k,
    decreases k,
{
    if k > 0 {
        lemma_list_len(tab, env, s, k - 1);
        lemma_exp_len(tab, ty_list(tab, env, s, k - 1)->Done_0, s[k - 1]);
    }
}

proof fn lemma_args_len<'a>(tab: Tables<'a>, env: EnvV, s: Seq<Exp<'a>>, ex: Seq<StaticTypeV>, k: int)
    requires
        0 <= k <= s.len(),
        k <= ex.len(),
        ty_args(tab, env, s, ex, k) is Done,
    ensures
        ty_args(tab, env, s, ex, k)->Done_1.len() == k,
    decreases k,
{
    if k > 0 {
        lemma_args_len(tab, env, s, ex, k - 1);
        lemma_exp_len(tab, ty_args(tab, env, s, ex, k - 1)->Done_0, s[k - 1]);
    }
}

proof fn lemma_args_stays<'a>(tab: Tables<'a>, env: EnvV, s: Seq<Exp<'a>>, ex: Seq<StaticTypeV>, j: int, k: int)
    requires
        0 <= j <= k <= s.len(),
        k <= ex.len(),
        !(ty_args(tab, env, s, ex, j) is Done),
    ensures
        ty_args(tab, env, s, ex, k) == ty_args(tab, env, s, ex, j),
    decreases k - j,
{
    if k > j {
        lemma_args_stays(tab, env, s, ex, j, k - 1);
    }
}

/// The context after typing agrees with the outcome: the tables are kept,
/// the error is the one expected, and on success the environment is the
/// one expected.
pub open spec fn typed<'a>(o: TyOut<'a>, r: Result<(), ReadError<'a>>, t0: TypingContext<'a>, t1: TypingContext<'a>) -> bool {
    &&& ready(t1)
    &&& keeps_tables(t1, t0)
    &&& outcome_matches(r, o)
    &&& (r is Ok ==> env_of(t1) == o->Done_0)
}

fn var_bound<'a>(tcx: &TypingContext<'a>, name: &String) -> (r: bool)
    requires
        ready(*tcx),
    ensures
        r == ((env_of(*tcx).stacks)(name@).len() > 0),
{
    match find_key(&tcx.environment, name.as_str()) {
        None => false,
        Some(p) => {
            proof {
                lemma_key_pos(tcx.environment@, p as int);
            }
            true
        },
    }
}

/// Types the expressions of a list in order.
pub(crate) fn type_list<'a>(tcx: &mut TypingContext<'a>, v: &mut Vec<Exp<'a>>) -> (r: Result<(), ReadError<'a>>)
    requires
        ready(*old(tcx)),
        !(ty_list(tables_of(*old(tcx)), env_of(*old(tcx)), old(v)@, old(v)@.len() as int) is Stuck),
    ensures
        typed(ty_list(tables_of(*old(tcx)), env_of(*old(tcx)), old(v)@, old(v)@.len() as int), r, *old(tcx), *final(tcx)),
        final(v)@.len() == old(v)@.len(),
        forall|j: int| 0 <= j < old(v)@.len() ==> #[trigger] final(v)@[j].span == old(v)@[j].span,
        r is Ok ==> forall|j: int| 0 <= j < old(v)@.len() ==> #[trigger] final(v)@[j].static_ty@
            == ty_list(tables_of(*old(tcx)), env_of(*old(tcx)), old(v)@, old(v)@.len() as int)->Done_1[j],
        r is Ok ==> list_ann(tables_of(*old(tcx)), env_of(*old(tcx)), old(v)@, final(v)@),
    decreases *old(v), 0int,
{
    let ghost tab = tables_of(*tcx);
    let ghost env0 = env_of(*tcx);
    let ghost t0 = *tcx;
    let ghost v0 = *v;
    let ghost s0 = v@;
    let mut items: Vec<Exp<'a>> = Vec::new();
    std::mem::swap(&mut items, v);
    let n = items.len();
    let mut i: usize = 0;
    proof {
        lemma_list_len(tab, env0, s0, 0);
    }
    while i < n
        invariant
            i <= n,
            n == s0.len(),
            v0@ == s0,
            v0 == *old(v),
            s0 == old(v)@,
            tab == tables_of(*old(tcx)),
            env0 == env_of(*old(tcx)),
            t0 == *old(tcx),
            items@ == s0.subrange(i as int, n as int),
            v@.len() == i,
            forall|j: int| 0 <= j < i ==> #[trigger] v@[j].span == s0[j].span,
            ready(*tcx),
            keeps_tables(*tcx, t0),
            tab == tables_of(t0),
            ty_list(tab, env0, s0, i as int) is Done,
            ty_list(tab, env0, s0, i as int)->Done_1.len() == i,
            env_of(*tcx) == ty_list(tab, env0, s0, i as int)->Done_0,
            forall|j: int| 0 <= j < i ==> #[trigger] v@[j].static_ty@ == ty_list(tab, env0, s0, i as int)->Done_1[j],
            !(ty_list(tab, env0, s0, n as int) is Stuck),
            list_ann(tab, env0, s0, v@),
        decreases n - i,
    {
        let ghost envi = env_of(*tcx);
        let ghost tsi = ty_list(tab, env0, s0, i as int)->Done_1;
        let mut x = items.remove(0);
        assert(x == s0[i as int]);
        proof {
            assert(decreases_to!(v0 => v0@));
            assert(decreases_to!(v0@ => v0@[i as int]));
            if ty_exp(tab, envi, x) is Stuck {
                assert(ty_list(tab, env0, s0, i + 1) is Stuck);
                lemma_list_stays(tab, env0, s0, i + 1, n as int);
            }
        }
        let r = type_expression(tcx, &mut x);
        let ghost vb = v@;
        v.push(x);
        proof {
            assert(v@.drop_last() =~= vb);
        }
        if r.is_err() {
            proof {
                lemma_list_stays(tab, env0, s0, i + 1, n as int);
            }
            let ghost pre = v@;
            v.append(&mut items);
            assert forall|j: int| 0 <= j < s0.len() implies #[trigger] v@[j].span == s0[j].span by {
                if j > i {
                    assert(v@[j] == s0[j]);
                }
            }
            return r;
        }
        proof {
            lemma_exp_len(tab, envi, s0[i as int]);
            lemma_list_len(tab, env0, s0, i + 1);
            let tsn = ty_list(tab, env0, s0, i + 1)->Done_1;
            assert(tsn == tsi + ty_exp(tab, envi, s0[i as int])->Done_1);
            assert forall|j: int| 0 <= j < i + 1 implies #[trigger] v@[j].static_ty@ == tsn[j] by {
                if j < i {
                    assert(tsn[j] == tsi[j]);
                }
            }
        }
        i = i + 1;
    }
    assert(s0.subrange(0, n as int) =~= s0);
    Ok(())
}

/// Types the first arguments of a call, as many as there are types expected,
/// each against the type expected for it.
#[verifier::spinoff_prover]
#[verifier::rlimit(100)]
fn type_args<'a>(tcx: &mut TypingContext<'a>, v: &mut Vec<Exp<'a>>, expected: &Vec<StaticType>) -> (r: Result<(), ReadError<'a>>)
    requires
        ready(*old(tcx)),
        !(ty_args(
            tables_of(*old(tcx)),
            env_of(*old(tcx)),
            old(v)@,
            types_view(expected@),
            pairs(old(v)@.len() as int, expected@.len() as int),
        ) is Stuck),
    ensures
        typed(
            ty_args(
                tables_of(*old(tcx)),
                env_of(*old(tcx)),
                old(v)@,
                types_view(expected@),
                pairs(old(v)@.len() as int, expected@.len() as int),
            ),
            r,
            *old(tcx),
            *final(tcx),
        ),
        final(v)@.len() == old(v)@.len(),
        forall|j: int| 0 <= j < old(v)@.len() ==> #[trigger] final(v)@[j].span == old(v)@[j].span,
        r is Ok ==> forall|j: int|
            0 <= j < old(v)@.len() ==> #[trigger] final(v)@[j].static_ty@ == if j < pairs(
                old(v)@.len() as int,
                expected@.len() as int,
            ) {
                ty_args(
                    tables_of(*old(tcx)),
                    env_of(*old(tcx)),
                    old(v)@,
                    types_view(expected@),
                    pairs(old(v)@.len() as int, expected@.len() as int),
                )->Done_1[j]
            } else {
                old(v)@[j].static_ty@
            },
        r is Ok ==> args_ann(
            tables_of(*old(tcx)),
            env_of(*old(tcx)),
            old(v)@,
            types_view(expected@),
            final(v)@.take(pairs(old(v)@.len() as int, expected@.len() as int)),
        ),
        r is Ok ==> final(v)@.skip(pairs(old(v)@.len() as int, expected@.len() as int)) == old(v)@.skip(
            pairs(old(v)@.len() as int, expected@.len() as int),
        ),
    decreases *old(v), 0int,
{
    let ghost tab = tables_of(*tcx);
    let ghost env0 = env_of(*tcx);
    let ghost t0 = *tcx;
    let ghost v0 = *v;
    let ghost s0 = v@;
    let ghost ex = types_view(expected@);
    let m = if v.len() <= expected.len() {
        v.len()
    } else {
        expected.len()
    };
    let mut items: Vec<Exp<'a>> = Vec::new();
    std::mem::swap(&mut items, v);
    let n = items.len();
    let mut i: usize = 0;
    proof {
        lemma_args_len(tab, env0, s0, ex, 0);
    }
    while i < m
        invariant
            i <= m,
            m <= n,
            m <= expected@.len(),
            m == pairs(s0.len() as int, expected@.len() as int),
            ex == types_view(expected@),
            n == s0.len(),
            v0@ == s0,
            v0 == *old(v),
            s0 == old(v)@,
            tab == tables_of(*old(tcx)),
            env0 == env_of(*old(tcx)),
            t0 == *old(tcx),
            items@ == s0.subrange(i as int, n as int),
            v@.len() == i,
            forall|j: int| 0 <= j < i ==> #[trigger] v@[j].span == s0[j].span,
            ready(*tcx),
            keeps_tables(*tcx, t0),
            tab == tables_of(t0),
            ty_args(tab, env0, s0, ex, i as int) is Done,
            ty_args(tab, env0, s0, ex, i as int)->Done_1.len() == i,
            env_of(*tcx) == ty_args(tab, env0, s0, ex, i as int)->Done_0,
            forall|j: int| 0 <= j < i ==> #[trigger] v@[j].static_ty@ == ty_args(tab, env0, s0, ex, i as int)->Done_1[j],
            !(ty_args(tab, env0, s0, ex, m as int) is Stuck),
            args_ann(tab, env0, s0, ex, v@),
        decreases m - i,
    {
        let ghost envi = env_of(*tcx);
        let ghost tsi = ty_args(tab, env0, s0, ex, i as int)->Done_1;
        let mut x = items.remove(0);
        assert(x == s0[i as int]);
        proof {
            assert(decreases_to!(v0 => v0@));
            assert(decreases_to!(v0@ => v0@[i as int]));
            if ty_exp(tab, envi, x) is Stuck {
                assert(ty_args(tab, env0, s0, ex, i + 1) is Stuck);
                lemma_args_stays(tab, env0, s0, ex, i + 1, m as int);
            }
        }
        let r = type_expression(tcx, &mut x);
        if r.is_err() {
            v.push(x);
            proof {
                lemma_args_stays(tab, env0, s0, ex, i + 1, m as int);
            }
            v.append(&mut items);
            assert forall|j: int| 0 <= j < s0.len() implies #[trigger] v@[j].span == s0[j].span by {
                if j > i {
                    assert(v@[j] == s0[j]);
                }
            }
            return r;
        }
        let ok = is_compatible(x.static_ty.duplicate(), expected[i].duplicate());
        if !ok {
            proof {
                assert(ex[i as int] == expected@[i as int]@);
                lemma_args_stays(tab, env0, s0, ex, i + 1, m as int);
            }
            let e_text = expected[i].to_string();
            let f_text = x.static_ty.to_string();
            let span = x.span;
            v.push(x);
            v.append(&mut items);
            assert forall|j: int| 0 <= j < s0.len() implies #[trigger] v@[j].span == s0[j].span by {
                if j > i {
                    assert(v@[j] == s0[j]);
                }
            }
            proof {
                reveal_strlit("Incompatible types. Expected '");
                reveal_strlit("', found '");
                reveal_strlit("'");
            }
            let mut msg = cat3("Incompatible types. Expected '", e_text.as_str(), "', found '");
            msg.append(f_text.as_str());
            msg.append("'");
            return fail(span, msg);
        }
        let ghost vb = v@;
        v.push(x);
        proof {
            assert(v@.drop_last() =~= vb);
            assert(ex[i as int] == expected@[i as int]@);
            lemma_exp_len(tab, envi, s0[i as int]);
            lemma_args_len(tab, env0, s0, ex, i + 1);
            let tsn = ty_args(tab, env0, s0, ex, i + 1)->Done_1;
            assert(tsn == tsi + ty_exp(tab, envi, s0[i as int])->Done_1);
            assert forall|j: int| 0 <= j < i + 1 implies #[trigger] v@[j].static_ty@ == tsn[j] by {
                if j < i {
                    assert(tsn[j] == tsi[j]);
                }
            }
        }
        i = i + 1;
    }
    let ghost prefix = v@;
    v.append(&mut items);
    assert forall|j: int| 0 <= j < s0.len() implies #[trigger] v@[j].span == s0[j].span by {
        if j >= m {
            assert(v@[j] == s0[j]);
        }
    }
    assert forall|j: int| 0 <= j < s0.len() && j >= m implies #[trigger] v@[j].static_ty@ == s0[j].static_ty@ by {
        assert(v@[j] == s0[j]);
    }
    assert(v@.take(m as int) =~= prefix);
    assert(v@.skip(m as int) =~= s0.skip(m as int));
    Ok(())
}

/// Types the expressions of a block in order; a block that ends with a
/// semicolon takes the type of its last expression, `Nothing` when empty.
pub fn type_block<'a>(tcx: &mut TypingContext<'a>, block: &mut Block<'a>) -> (r: Result<(), ReadError<'a>>)
    requires
        ready(*old(tcx)),
        !(ty_block(tables_of(*old(tcx)), env_of(*old(tcx)), *old(block)) is Stuck),
    ensures
        typed(ty_block(tables_of(*old(tcx)), env_of(*old(tcx)), *old(block)), r, *old(tcx), *final(tcx)),
        final(block).span == old(block).span,
        final(block).trailing_semicolon == old(block).trailing_semicolon,
        r is Ok ==> final(block).static_ty@ == ty_block(tables_of(*old(tcx)), env_of(*old(tcx)), *old(block))->Done_1[0],
        r is Ok ==> block_ann(tables_of(*old(tcx)), env_of(*old(tcx)), *old(block), *final(block)),
    decreases *old(block), 1int,
{
    let ghost tab = tables_of(*tcx);
    let ghost env0 = env_of(*tcx);
    let ghost b0 = *block;
    proof {
        assert(decreases_to!(b0 => b0.val));
    }
    let r = type_list(tcx, &mut block.val);
    if r.is_err() {
        return r;
    }
    proof {
        lemma_list_len(tab, env0, b0.val@, b0.val@.len() as int);
    }
    if block.trailing_semicolon {
        let n = block.val.len();
        if n == 0 {
            block.static_ty = StaticType::Nothing;
        } else {
            block.static_ty = block.val[n - 1].static_ty.duplicate();
        }
    }
    Ok(())
}

/// Types the branches of an `else`.
fn type_else<'a>(tcx: &mut TypingContext<'a>, u: &mut Else<'a>) -> (r: (Result<(), ReadError<'a>>, StaticType))
    requires
        ready(*old(tcx)),
        !(ty_else(tables_of(*old(tcx)), env_of(*old(tcx)), *old(u)) is Stuck),
    ensures
        typed(ty_else(tables_of(*old(tcx)), env_of(*old(tcx)), *old(u)), r.0, *old(tcx), *final(tcx)),
        r.0 is Ok ==> r.1@ == ty_else(tables_of(*old(tcx)), env_of(*old(tcx)), *old(u))->Done_1[0],
        r.0 is Ok ==> else_ann(tables_of(*old(tcx)), env_of(*old(tcx)), *old(u), *final(u)),
    decreases *old(u), 1int,
{
    let ghost tab = tables_of(*tcx);
    let ghost env0 = env_of(*tcx);
    let ghost u0 = *u;
    proof {
        assert(decreases_to!(u0 => u0.val));
    }
    let mut v = ElseVal::End;
    std::mem::swap(&mut v, &mut *u.val);
    match v {
        ElseVal::End => {
            *u.val = ElseVal::End;
            (Ok(()), StaticType::Nothing)
        },
        ElseVal::Else(mut b) => {
            tcx_enter(tcx);
            let r = type_block(tcx, &mut b);
            let t = b.static_ty.duplicate();
            *u.val = ElseVal::Else(b);
            if r.is_err() {
                return (r, StaticType::Any);
            }
            tcx_restore(tcx);
            (Ok(()), t)
        },
        ElseVal::ElseIf(mut c, mut b, mut rest) => {
            let r = type_expression(tcx, &mut c);
            if r.is_err() {
                *u.val = ElseVal::ElseIf(c, b, rest);
                return (r, StaticType::Any);
            }
            tcx_enter(tcx);
            let r = type_block(tcx, &mut b);
            if r.is_err() {
                *u.val = ElseVal::ElseIf(c, b, rest);
                return (r, StaticType::Any);
            }
            tcx_restore(tcx);
            let (r, tr) = type_else(tcx, &mut rest);
            let tb = b.static_ty.duplicate();
            *u.val = ElseVal::ElseIf(c, b, rest);
            if r.is_err() {
                return (r, StaticType::Any);
            }
            if tr.same(&tb) {
                (Ok(()), tb)
            } else {
                (Ok(()), StaticType::Any)
            }
        },
    }
}

/// Types an expression, and the expressions inside it, in the context; the
/// context's environment follows the bindings that typing makes. Each node
/// gets its type, and each variable read the scope of its binding.
#[verifier::spinoff_prover]
#[verifier::rlimit(100)]
pub fn type_expression<'a>(tcx: &mut TypingContext<'a>, expr: &mut Exp<'a>) -> (r: Result<(), ReadError<'a>>)
    requires
        ready(*old(tcx)),
        !(ty_exp(tables_of(*old(tcx)), env_of(*old(tcx)), *old(expr)) is Stuck),
    ensures
        typed(ty_exp(tables_of(*old(tcx)), env_of(*old(tcx)), *old(expr)), r, *old(tcx), *final(tcx)),
        final(expr).span == old(expr).span,
        r is Ok ==> final(expr).static_ty@ == ty_exp(tables_of(*old(tcx)), env_of(*old(tcx)), *old(expr))->Done_1[0],
        r is Ok ==> annotated(tables_of(*old(tcx)), env_of(*old(tcx)), *old(expr), *final(expr)),
    decreases *old(expr), 1int,
{
    if matches!(*expr.val, ExpVal::Assign(_, _)) {
        let ghost t0 = *tcx;
        let ghost e0 = *expr;
        let r = type_assign(tcx, expr);
        proof {
            if r is Ok {
                lemma_annotated(tables_of(t0), env_of(t0), e0, *expr);
            }
        }
        return r;
    }
    if matches!(*expr.val, ExpVal::Call(_, _)) {
        let ghost t0 = *tcx;
        let ghost e0 = *expr;
        let r = type_call(tcx, expr);
        proof {
            if r is Ok {
                lemma_annotated(tables_of(t0), env_of(t0), e0, *expr);
            }
        }
        return r;
    }
    if matches!(*expr.val, ExpVal::LValue(_)) {
        let ghost t0 = *tcx;
        let ghost e0 = *expr;
        let r = type_lvalue(tcx, expr);
        proof {
            if r is Ok {
                lemma_annotated(tables_of(t0), env_of(t0), e0, *expr);
            }
        }
        return r;
    }
    if matches!(*expr.val, ExpVal::BinOp(_, _, _)) {
        return type_bin_op(tcx, expr);
    }
    if matches!(*expr.val, ExpVal::UnaryOp(_, _)) {
        return type_unary_op(tcx, expr);
    }
    if matches!(*expr.val, ExpVal::If(_, _, _)) {
        return type_if(tcx, expr);
    }
    if matches!(*expr.val, ExpVal::While(_, _)) {
        return type_while(tcx, expr);
    }
    if matches!(*expr.val, ExpVal::For(_, _, _)) {
        let ghost t0 = *tcx;
        let ghost e0 = *expr;
        let r = type_for(tcx, expr);
        proof {
            if r is Ok {
                lemma_annotated(tables_of(t0), env_of(t0), e0, *expr);
            }
        }
        return r;
    }
    let ghost tab = tables_of(*tcx);
    let ghost env0 = env_of(*tcx);
    let ghost e0 = *expr;
    let span = expr.span;
    let mut v = ExpVal::Int(0);
    std::mem::swap(&mut v, &mut *expr.val);
    match v {
        ExpVal::Return(m) => match m {
            None => {
                *expr.val = ExpVal::Return(None);
                expr.static_ty = StaticType::Any;
                proof {
                    assert(shaped(tab, env0, e0, *expr));
                }
                Ok(())
            },
            Some(mut x) => {
                let r = type_expression(tcx, &mut x);
                *expr.val = ExpVal::Return(Some(x));
                if r.is_err() {
                    return r;
                }
                expr.static_ty = StaticType::Any;
                proof {
                    assert(shaped(tab, env0, e0, *expr));
                }
                Ok(())
            },
        },
        ExpVal::Int(n) => {
            *expr.val = ExpVal::Int(n);
            expr.static_ty = StaticType::Int64;
            proof {
                assert(shaped(tab, env0, e0, *expr));
            }
            Ok(())
        },
        ExpVal::Str(t) => {
            *expr.val = ExpVal::Str(t);
            expr.static_ty = StaticType::Str;
            proof {
                assert(shaped(tab, env0, e0, *expr));
            }
            Ok(())
        },
        ExpVal::Bool(t) => {
            *expr.val = ExpVal::Bool(t);
            expr.static_ty = StaticType::Bool;
            proof {
                assert(shaped(tab, env0, e0, *expr));
            }
            Ok(())
        },
        ExpVal::Block(mut b) => {
            let r = type_block(tcx, &mut b);
            *expr.val = ExpVal::Block(b);
            if r.is_err() {
                return r;
            }
            expr.static_ty = StaticType::Any;
            proof {
                assert(shaped(tab, env0, e0, *expr));
            }
            Ok(())
        },
        ExpVal::Mul(n, var) => {
            let bound = var_bound(tcx, &var);
            if !bound {
                proof {
                    reveal_strlit("No variable named '");
                    reveal_strlit("' is declared in this scope");
                }
                let msg = cat3("No variable named '", var.as_str(), "' is declared in this scope");
                *expr.val = ExpVal::Mul(n, var);
                return fail(span, msg);
            }
            *expr.val = ExpVal::Mul(n, var);
            expr.static_ty = StaticType::Int64;
            proof {
                assert(shaped(tab, env0, e0, *expr));
            }
            Ok(())
        },
        ExpVal::LMul(n, mut b) => {
            let r = type_block(tcx, &mut b);
            *expr.val = ExpVal::LMul(n, b);
            if r.is_err() {
                return r;
            }
            expr.static_ty = StaticType::Int64;
            proof {
                assert(shaped(tab, env0, e0, *expr));
            }
            Ok(())
        },
        ExpVal::RMul(mut x, var) => {
            let bound = var_bound(tcx, &var);
            if !bound {
                proof {
                    reveal_strlit("No variable named '");
                    reveal_strlit("' is declared in this scope");
                }
                let msg = cat3("No variable named '", var.as_str(), "' is declared in this scope");
                *expr.val = ExpVal::RMul(x, var);
                return fail(span, msg);
            }
            let r = type_expression(tcx, &mut x);
            *expr.val = ExpVal::RMul(x, var);
            if r.is_err() {
                return r;
            }
            expr.static_ty = StaticType::Int64;
            proof {
                assert(shaped(tab, env0, e0, *expr));
            }
            Ok(())
        },
        other => {
            proof {
                assert(false);
            }
            *expr.val = other;
            proof {
                assert(shaped(tab, env0, e0, *expr));
            }
            Ok(())
        },
    }
}

#[verifier::spinoff_prover]
#[verifier::rlimit(100)]
fn type_bin_op<'a>(tcx: &mut TypingContext<'a>, expr: &mut Exp<'a>) -> (r: Result<(), ReadError<'a>>)
    requires
        ready(*old(tcx)),
        (*old(expr).val) is BinOp,
        !(ty_exp(tables_of(*old(tcx)), env_of(*old(tcx)), *old(expr)) is Stuck),
    ensures
        typed(ty_exp(tables_of(*old(tcx)), env_of(*old(tcx)), *old(expr)), r, *old(tcx), *final(tcx)),
        final(expr).span == old(expr).span,
        r is Ok ==> annotated(tables_of(*old(tcx)), env_of(*old(tcx)), *old(expr), *final(expr)),
    decreases *old(expr), 0int,
{
    let ghost tab = tables_of(*tcx);
    let ghost env0 = env_of(*tcx);
    let ghost e0 = *expr;
    let mut v = ExpVal::Int(0);
    std::mem::swap(&mut v, &mut *expr.val);
    match v {
        ExpVal::BinOp(op, mut a, mut b) => {
            let r = type_expression(tcx, &mut a);
            if r.is_err() {
                *expr.val = ExpVal::BinOp(op, a, b);
                return r;
            }
            let r = type_expression(tcx, &mut b);
            if r.is_err() {
                *expr.val = ExpVal::BinOp(op, a, b);
                return r;
            }
            let ta = a.static_ty.duplicate();
            let tb = b.static_ty.duplicate();
            let sa = a.span;
            let sb = b.span;
            *expr.val = ExpVal::BinOp(op, a, b);
            let ghost tv = seq![ta@, tb@];
            let bad_a;
            let bad_b;
            let result;
            match op {
                BinOp::Plus | BinOp::Minus | BinOp::Times | BinOp::Mod | BinOp::Pow => {
                    bad_a = !any_or_ty(&ta, &StaticType::Int64);
                    bad_b = !any_or_ty(&tb, &StaticType::Int64);
                    result = StaticType::Int64;
                },
                BinOp::Equ | BinOp::Neq => {
                    bad_a = false;
                    bad_b = false;
                    result = StaticType::Bool;
                },
                BinOp::Lt | BinOp::Leq | BinOp::Gt | BinOp::Geq => {
                    bad_a = !orderable_ty(&ta);
                    bad_b = !orderable_ty(&tb);
                    result = StaticType::Bool;
                },
                BinOp::And | BinOp::Or => {
                    bad_a = !any_or_ty(&ta, &StaticType::Bool);
                    bad_b = !any_or_ty(&tb, &StaticType::Bool);
                    result = StaticType::Bool;
                },
            }
            if bad_a || bad_b {
                let o = bin_op_str(op);
                let ts = vec![ta, tb];
                assert(types_view(ts@) =~= tv);
                let msg = no_operation_msg(o.as_str(), ts);
                if bad_a {
                    return fail(sa, msg);
                } else {
                    return fail(sb, msg);
                }
            }
            expr.static_ty = result;
            proof {
                assert(shaped(tab, env0, e0, *expr));
            }
            Ok(())
        },
        other => {
            proof {
                assert(false);
            }
            *expr.val = other;
            Ok(())
        },
    }
}

#[verifier::spinoff_prover]
#[verifier::rlimit(100)]
fn type_unary_op<'a>(tcx: &mut TypingContext<'a>, expr: &mut Exp<'a>) -> (r: Result<(), ReadError<'a>>)
    requires
        ready(*old(tcx)),
        (*old(expr).val) is UnaryOp,
        !(ty_exp(tables_of(*old(tcx)), env_of(*old(tcx)), *old(expr)) is Stuck),
    ensures
        typed(ty_exp(tables_of(*old(tcx)), env_of(*old(tcx)), *old(expr)), r, *old(tcx), *final(tcx)),
        final(expr).span == old(expr).span,
        r is Ok ==> annotated(tables_of(*old(tcx)), env_of(*old(tcx)), *old(expr), *final(expr)),
    decreases *old(expr), 0int,
{
    let ghost tab = tables_of(*tcx);
    let ghost env0 = env_of(*tcx);
    let ghost e0 = *expr;
    let mut v = ExpVal::Int(0);
    std::mem::swap(&mut v, &mut *expr.val);
    match v {
        ExpVal::UnaryOp(op, mut x) => {
            let r = type_expression(tcx, &mut x);
            if r.is_err() {
                *expr.val = ExpVal::UnaryOp(op, x);
                return r;
            }
            let tx = x.static_ty.duplicate();
            let sx = x.span;
            *expr.val = ExpVal::UnaryOp(op, x);
            let (bad, result) = match op {
                UnaryOp::Neg => (!any_or_ty(&tx, &StaticType::Int64), StaticType::Int64),
                UnaryOp::Not => (!any_or_ty(&tx, &StaticType::Bool), StaticType::Bool),
            };
            if bad {
                let o = un_op_str(op);
                let ghost tv = seq![tx@];
                let ts = vec![tx];
                assert(types_view(ts@) =~= tv);
                return fail(sx, no_operation_msg(o.as_str(), ts));
            }
            expr.static_ty = result;
            proof {
                assert(shaped(tab, env0, e0, *expr));
            }
            Ok(())
        },
        other => {
            proof {
                assert(false);
            }
            *expr.val = other;
            Ok(())
        },
    }
}

#[verifier::spinoff_prover]
#[verifier::rlimit(100)]
fn type_if<'a>(tcx: &mut TypingContext<'a>, expr: &mut Exp<'a>) -> (r: Result<(), ReadError<'a>>)
    requires
        ready(*old(tcx)),
        (*old(expr).val) is If,
        !(ty_exp(tables_of(*old(tcx)), env_of(*old(tcx)), *old(expr)) is Stuck),
    ensures
        typed(ty_exp(tables_of(*old(tcx)), env_of(*old(tcx)), *old(expr)), r, *old(tcx), *final(tcx)),
        final(expr).span == old(expr).span,
        r is Ok ==> annotated(tables_of(*old(tcx)), env_of(*old(tcx)), *old(expr), *final(expr)),
    decreases *old(expr), 0int,
{
    let ghost tab = tables_of(*tcx);
    let ghost env0 = env_of(*tcx);
    let ghost e0 = *expr;
    let mut v = ExpVal::Int(0);
    std::mem::swap(&mut v, &mut *expr.val);
    match v {
        ExpVal::If(mut c, mut b, mut u) => {
            let r = type_expression(tcx, &mut c);
            if r.is_err() {
                *expr.val = ExpVal::If(c, b, u);
                return r;
            }
            if !any_or_ty(&c.static_ty, &StaticType::Bool) {
                let t = c.static_ty.to_string();
                let sc = c.span;
                *expr.val = ExpVal::If(c, b, u);
                proof {
                    reveal_strlit("Non-boolean (");
                    reveal_strlit(") used in boolean context");
                }
                return fail(sc, cat3("Non-boolean (", t.as_str(), ") used in boolean context"));
            }
            tcx_enter(tcx);
            let r = type_block(tcx, &mut b);
            if r.is_err() {
                *expr.val = ExpVal::If(c, b, u);
                return r;
            }
            tcx_restore(tcx);
            let (r, tu) = type_else(tcx, &mut u);
            let tb = b.static_ty.duplicate();
            *expr.val = ExpVal::If(c, b, u);
            if r.is_err() {
                return r;
            }
            if !tb.same(&tu) {
                expr.static_ty = StaticType::Any;
            } else {
                expr.static_ty = tb;
            }
            proof {
                assert(shaped(tab, env0, e0, *expr));
            }
            Ok(())
        },
        other => {
            proof {
                assert(false);
            }
            *expr.val = other;
            Ok(())
        },
    }
}

#[verifier::spinoff_prover]
#[verifier::rlimit(100)]
fn type_while<'a>(tcx: &mut TypingContext<'a>, expr: &mut Exp<'a>) -> (r: Result<(), ReadError<'a>>)
    requires
        ready(*old(tcx)),
        (*old(expr).val) is While,
        !(ty_exp(tables_of(*old(tcx)), env_of(*old(tcx)), *old(expr)) is Stuck),
    ensures
        typed(ty_exp(tables_of(*old(tcx)), env_of(*old(tcx)), *old(expr)), r, *old(tcx), *final(tcx)),
        final(expr).span == old(expr).span,
        r is Ok ==> annotated(tables_of(*old(tcx)), env_of(*old(tcx)), *old(expr), *final(expr)),
    decreases *old(expr), 0int,
{
    let ghost tab = tables_of(*tcx);
    let ghost env0 = env_of(*tcx);
    let ghost e0 = *expr;
    let mut v = ExpVal::Int(0);
    std::mem::swap(&mut v, &mut *expr.val);
    match v {
        ExpVal::While(mut c, mut b) => {
            let r = type_expression(tcx, &mut c);
            if r.is_err() {
                *expr.val = ExpVal::While(c, b);
                return r;
            }
            if any_or_ty(&c.static_ty, &StaticType::Bool) {
                let ids = collect_all_assign_in_array(&b.val);
                let ids = tcx_extend(tcx, ids);
                tcx_enter(tcx);
                let r = type_block(tcx, &mut b);
                *expr.val = ExpVal::While(c, b);
                if r.is_err() {
                    return r;
                }
                tcx_restore(tcx);
                tcx_unextend(tcx, ids);
                expr.static_ty = StaticType::Nothing;
                proof {
                    assert(shaped(tab, env0, e0, *expr));
                }
                Ok(())
            } else {
                let t = c.static_ty.to_string();
                let sc = c.span;
                *expr.val = ExpVal::While(c, b);
                proof {
                    reveal_strlit("Non-boolean (");
                    reveal_strlit(") used in boolean context");
                }
                fail(sc, cat3("Non-boolean (", t.as_str(), ") used in boolean context"))
            }
        },
        other => {
            proof {
                assert(false);
            }
            *expr.val = other;
            Ok(())
        },
    }
}

fn contains_name(v: &Vec<String>, k: &str) -> (r: bool)
    ensures
        r == exists|i: int| #![trigger v@[i]] 0 <= i < v@.len() && v@[i]@ == k@,
{
    let mut i: usize = 0;
    while i < v.len()
        invariant
            i <= v.len(),
            forall|j: int| 0 <= j < i ==> v@[j]@ != k@,
        decreases v.len() - i,
    {
        if str_eq(v[i].as_str(), k) {
            return true;
        }
        i = i + 1;
    }
    false
}

/// Types the assignment of `e` to a variable: the variable must be bound,
/// with a type compatible with that of `e`.
pub fn type_simple_assign<'a>(tcx: &mut TypingContext<'a>, lv: &mut crate::parser::ast::LValue<'a>, e: &mut Exp<'a>) -> (r: Result<(), ReadError<'a>>)
    requires
        ready(*old(tcx)),
        !(ty_simple_assign(tables_of(*old(tcx)), env_of(*old(tcx)), *old(lv), *old(e)) is Stuck),
    ensures
        typed(ty_simple_assign(tables_of(*old(tcx)), env_of(*old(tcx)), *old(lv), *old(e)), r, *old(tcx), *final(tcx)),
        *final(lv) == *old(lv),
        final(e).span == old(e).span,
        r is Ok ==> annotated(tables_of(*old(tcx)), env_of(*old(tcx)), *old(e), *final(e)),
    decreases *old(e), 2int,
{
    let r = type_expression(tcx, e);
    if r.is_err() {
        return r;
    }
    match tcx.type_from_env_name(&lv.name) {
        None => {
            proof {
                reveal_strlit("Compiler error, '");
                reveal_strlit("' was not found in the global typing context, unreachable variable. Environment was ");
            }
            let mut msg = cat3(
                "Compiler error, '",
                lv.name.as_str(),
                "' was not found in the global typing context, unreachable variable. Environment was ",
            );
            let ghost prefix = msg@;
            let dump = debug_env(&tcx.environment);
            msg.append(dump.as_str());
            assert(prefix.is_prefix_of(msg@)) by {
                assert(msg@.subrange(0, prefix.len() as int) =~= prefix);
            }
            fail(lv.span, msg)
        },
        Some(st) => {
            if !is_compatible(st.duplicate(), e.static_ty.duplicate()) {
                proof {
                    reveal_strlit("Expected on the lhs '");
                    reveal_strlit("' type, found: '");
                    reveal_strlit("' on the rhs");
                }
                let a = st.to_string();
                let b = e.static_ty.to_string();
                let mut msg = cat3("Expected on the lhs '", a.as_str(), "' type, found: '");
                msg.append(b.as_str());
                msg.append("' on the rhs");
                return fail(e.span, msg);
            }
            Ok(())
        },
    }
}

#[verifier::spinoff_prover]
#[verifier::rlimit(100)]
fn type_assign<'a>(tcx: &mut TypingContext<'a>, expr: &mut Exp<'a>) -> (r: Result<(), ReadError<'a>>)
    requires
        ready(*old(tcx)),
        (*old(expr).val) is Assign,
        !(ty_assign(tables_of(*old(tcx)), env_of(*old(tcx)), *old(expr)) is Stuck),
    ensures
        typed(ty_assign(tables_of(*old(tcx)), env_of(*old(tcx)), *old(expr)), r, *old(tcx), *final(tcx)),
        final(expr).span == old(expr).span,
        r is Ok ==> final(expr).static_ty@ == ty_assign(tables_of(*old(tcx)), env_of(*old(tcx)), *old(expr))->Done_1[0],
        r is Ok ==> shaped(tables_of(*old(tcx)), env_of(*old(tcx)), *old(expr), *final(expr)),
    decreases *old(expr), 0int,
{
    let ghost env0 = env_of(*tcx);
    let ghost tab = tables_of(*tcx);
    let ghost e0 = *expr;
    let mut v = ExpVal::Int(0);
    std::mem::swap(&mut v, &mut *expr.val);
    match v {
        ExpVal::Assign(mut lv, mut x) => {
            if lv.in_exp.is_none() {
                let r = type_simple_assign(tcx, &mut lv, &mut x);
                *expr.val = ExpVal::Assign(lv, x);
                proof {
                    if r is Ok {
                        assert(shaped(tab, env0, e0, *expr));
                    }
                }
                return r;
            }
            let crate::parser::ast::LValue { span: lspan, scope, in_exp, name } = lv;
            match in_exp {
                None => {
                    proof {
                        assert(false);
                    }
                    *expr.val = ExpVal::Assign(crate::parser::ast::LValue { span: lspan, scope, in_exp: None, name }, x);
                    proof {
                        assert(shaped(tab, env0, e0, *expr));
                    }
                    Ok(())
                },
                Some(mut p) => {
                    let r = type_expression(tcx, &mut p);
                    if r.is_err() {
                        *expr.val = ExpVal::Assign(crate::parser::ast::LValue { span: lspan, scope, in_exp: Some(p), name }, x);
                        return r;
                    }
                    let t = p.static_ty.duplicate();
                    let c = check_prefix(tcx, &name, lspan, &t);
                    if c.is_err() {
                        *expr.val = ExpVal::Assign(crate::parser::ast::LValue { span: lspan, scope, in_exp: Some(p), name }, x);
                        return c;
                    }
                    let is_any = match t {
                        StaticType::Any => true,
                        _ => false,
                    };
                    let ghost p_typed = p;
                    if is_any {
                        match find_key(&tcx.structure_name_by_fields, name.as_str()) {
                            Some(k) => {
                                proof {
                                    lemma_key_pos(tcx.structure_name_by_fields@, k as int);
                                }
                                p.static_ty = StaticType::Struct(tcx.structure_name_by_fields[k].1.clone());
                            },
                            None => {},
                        }
                    }
                    proof {
                        lemma_shaped_retyped(tab, env0, e0.val->Assign_0.in_exp->Some_0, p_typed, p);
                        assert(p.static_ty@ == refined(tab, ty_exp(tab, env0, e0.val->Assign_0.in_exp->Some_0)->Done_1[0], name@));
                    }
                    let r = type_expression(tcx, &mut x);
                    if r.is_err() {
                        *expr.val = ExpVal::Assign(crate::parser::ast::LValue { span: lspan, scope, in_exp: Some(p), name }, x);
                        return r;
                    }
                    let k = match find_key(&tcx.all_fields, name.as_str()) {
                        Some(k) => k,
                        None => {
                            proof {
                                assert(false);
                            }
                            *expr.val = ExpVal::Assign(crate::parser::ast::LValue { span: lspan, scope, in_exp: Some(p), name }, x);
                            proof {
                                assert(shaped(tab, env0, e0, *expr));
                            }
                            return Ok(());
                        },
                    };
                    proof {
                        lemma_key_pos(tcx.all_fields@, k as int);
                    }
                    let ft = tcx.all_fields[k].1.duplicate();
                    if !is_compatible(ft.duplicate(), x.static_ty.duplicate()) {
                        proof {
                            reveal_strlit("This expression has type '");
                            reveal_strlit("' but is incompatible with '");
                            reveal_strlit("' (declared in the structure)");
                        }
                        let a = x.static_ty.to_string();
                        let b = debug_type(&ft);
                        let mut msg = cat3("This expression has type '", a.as_str(), "' but is incompatible with '");
                        msg.append(b.as_str());
                        msg.append("' (declared in the structure)");
                        let sx = x.span;
                        *expr.val = ExpVal::Assign(crate::parser::ast::LValue { span: lspan, scope, in_exp: Some(p), name }, x);
                        return fail(sx, msg);
                    }
                    *expr.val = ExpVal::Assign(crate::parser::ast::LValue { span: lspan, scope, in_exp: Some(p), name }, x);
                    proof {
                        assert(shaped(tab, env0, e0, *expr));
                    }
                    Ok(())
                },
            }
        },
        other => {
            proof {
                assert(false);
            }
            *expr.val = other;
            proof {
                assert(shaped(tab, env0, e0, *expr));
            }
            Ok(())
        },
    }
}

fn check_prefix<'a>(tcx: &TypingContext<'a>, name: &String, span: Span<'a>, t: &StaticType) -> (r: Result<(), ReadError<'a>>)
    requires
        ready(*tcx),
        !struct_missing(tables_of(*tcx), t@),
    ensures
        match prefix_err(tables_of(*tcx), t@, name@, span) {
            None => r is Ok,
            Some((sp, msg)) => r is Err && r->Err_0.spec_span() == sp && r->Err_0.spec_message() == msg,
        },
{
    if !tcx.field_exist_in(t, name) {
        proof {
            reveal_strlit("Field '");
            reveal_strlit("' does not exist for the type '");
            reveal_strlit("'");
        }
        let ts = t.to_string();
        let mut msg = cat3("Field '", name.as_str(), "' does not exist for the type '");
        msg.append(ts.as_str());
        msg.append("'");
        return fail(span, msg);
    }
    let is_any = match t {
        StaticType::Any => true,
        _ => false,
    };
    if is_any {
        let bf = find_key(&tcx.structure_name_by_fields, name.as_str());
        if let Some(k) = bf {
            assert(tcx.structure_name_by_fields@[k as int].0@ == name@);
            assert(has_key(tcx.structure_name_by_fields@, name@));
        }
        if bf.is_none() {
            proof {
                reveal_strlit("Field '");
                reveal_strlit("' is not declared anywhere in any structure");
            }
            let msg = cat3("Field '", name.as_str(), "' is not declared anywhere in any structure");
            return fail(span, msg);
        }
    }
    if !contains_name(&tcx.mutable_fields, name.as_str()) {
        proof {
            reveal_strlit("Field '");
            reveal_strlit("' is not contained in a mutable structure, it cannot be assigned");
        }
        let msg = cat3("Field '", name.as_str(), "' is not contained in a mutable structure, it cannot be assigned");
        return fail(span, msg);
    }
    proof {
        let mf = tcx.mutable_fields@;
        let i = choose|i: int| #![trigger mf[i]] 0 <= i < mf.len() && mf[i]@ == name@;
        assert(tables_of(*tcx).mutable_fields[i]@ == name@);
    }
    Ok(())
}

#[verifier::spinoff_prover]
#[verifier::rlimit(100)]
fn type_lvalue<'a>(tcx: &mut TypingContext<'a>, expr: &mut Exp<'a>) -> (r: Result<(), ReadError<'a>>)
    requires
        ready(*old(tcx)),
        (*old(expr).val) is LValue,
        !(ty_lvalue(tables_of(*old(tcx)), env_of(*old(tcx)), *old(expr)) is Stuck),
    ensures
        typed(ty_lvalue(tables_of(*old(tcx)), env_of(*old(tcx)), *old(expr)), r, *old(tcx), *final(tcx)),
        final(expr).span == old(expr).span,
        r is Ok ==> final(expr).static_ty@ == ty_lvalue(tables_of(*old(tcx)), env_of(*old(tcx)), *old(expr))->Done_1[0],
        r is Ok ==> shaped(tables_of(*old(tcx)), env_of(*old(tcx)), *old(expr), *final(expr)),
    decreases *old(expr), 0int,
{
    let ghost tab = tables_of(*tcx);
    let ghost env0 = env_of(*tcx);
    let ghost e0 = *expr;
    let mut v = ExpVal::Int(0);
    std::mem::swap(&mut v, &mut *expr.val);
    match v {
        ExpVal::LValue(lv) => {
            let crate::parser::ast::LValue { span: lspan, scope, in_exp, name } = lv;
            match in_exp {
                None => {
                    let t = tcx.type_from_env_name(&name);
                    let sc = tcx.scope_from_env_name(&name);
                    match (t, sc) {
                        (Some(t), Some(sc)) => {
                            *expr.val = ExpVal::LValue(crate::parser::ast::LValue { span: lspan, scope: sc, in_exp: None, name });
                            expr.static_ty = t;
                            proof {
                                assert(shaped(tab, env0, e0, *expr));
                            }
                            Ok(())
                        },
                        _ => {
                            proof {
                                reveal_strlit("No variable named '");
                                reveal_strlit("' is declared in this scope");
                            }
                            let msg = cat3("No variable named '", name.as_str(), "' is declared in this scope");
                            *expr.val = ExpVal::LValue(crate::parser::ast::LValue { span: lspan, scope, in_exp: None, name });
                            fail(lspan, msg)
                        },
                    }
                },
                Some(mut x) => {
                    let r = type_expression(tcx, &mut x);
                    if r.is_err() {
                        *expr.val = ExpVal::LValue(crate::parser::ast::LValue { span: lspan, scope, in_exp: Some(x), name });
                        return r;
                    }
                    if !tcx.field_exist_in(&x.static_ty, &name) {
                        proof {
                            reveal_strlit("No field named '");
                            reveal_strlit("' in type '");
                            reveal_strlit("'");
                        }
                        let ts = x.static_ty.to_string();
                        let mut msg = cat3("No field named '", name.as_str(), "' in type '");
                        msg.append(ts.as_str());
                        msg.append("'");
                        *expr.val = ExpVal::LValue(crate::parser::ast::LValue { span: lspan, scope, in_exp: Some(x), name });
                        return fail(lspan, msg);
                    }
                    let k = match find_key(&tcx.all_fields, name.as_str()) {
                        Some(k) => k,
                        None => {
                            proof {
                                reveal_strlit("No field named '");
                                reveal_strlit("' in any structure");
                            }
                            let msg = cat3("No field named '", name.as_str(), "' in any structure");
                            *expr.val = ExpVal::LValue(crate::parser::ast::LValue { span: lspan, scope, in_exp: Some(x), name });
                            return fail(lspan, msg);
                        },
                    };
                    proof {
                        lemma_key_pos(tcx.all_fields@, k as int);
                    }
                    let is_any = match x.static_ty {
                        StaticType::Any => true,
                        _ => false,
                    };
                    let ghost x_typed = x;
                    if is_any {
                        match find_key(&tcx.structure_name_by_fields, name.as_str()) {
                            Some(j) => {
                                proof {
                                    lemma_key_pos(tcx.structure_name_by_fields@, j as int);
                                }
                                x.static_ty = StaticType::Struct(tcx.structure_name_by_fields[j].1.clone());
                            },
                            None => {
                                proof {
                                    assert(false);
                                }
                            },
                        }
                    }
                    proof {
                        lemma_shaped_retyped(tab, env0, e0.val->LValue_0.in_exp->Some_0, x_typed, x);
                    }
                    let ft = tcx.all_fields[k].1.duplicate();
                    *expr.val = ExpVal::LValue(crate::parser::ast::LValue { span: lspan, scope: Scope::Local, in_exp: Some(x), name });
                    expr.static_ty = ft;
                    proof {
                        assert(shaped(tab, env0, e0, *expr));
                    }
                    Ok(())
                },
            }
        },
        other => {
            proof {
                assert(false);
            }
            *expr.val = other;
            proof {
                assert(shaped(tab, env0, e0, *expr));
            }
            Ok(())
        },
    }
}

fn type_for<'a>(tcx: &mut TypingContext<'a>, expr: &mut Exp<'a>) -> (r: Result<(), ReadError<'a>>)
    requires
        ready(*old(tcx)),
        (*old(expr).val) is For,
        !(ty_for(tables_of(*old(tcx)), env_of(*old(tcx)), *old(expr)) is Stuck),
    ensures
        typed(ty_for(tables_of(*old(tcx)), env_of(*old(tcx)), *old(expr)), r, *old(tcx), *final(tcx)),
        final(expr).span == old(expr).span,
        r is Ok ==> final(expr).static_ty@ == ty_for(tables_of(*old(tcx)), env_of(*old(tcx)), *old(expr))->Done_1[0],
        r is Ok ==> shaped(tables_of(*old(tcx)), env_of(*old(tcx)), *old(expr), *final(expr)),
    decreases *old(expr), 0int,
{
    let ghost tab = tables_of(*tcx);
    let ghost env0 = env_of(*tcx);
    let ghost e0 = *expr;
    let mut v = ExpVal::Int(0);
    std::mem::swap(&mut v, &mut *expr.val);
    match v {
        ExpVal::For(ident, mut range, mut b) => {
            let r = type_expression(tcx, &mut range.start);
            if r.is_err() {
                *expr.val = ExpVal::For(ident, range, b);
                return r;
            }
            let r = type_expression(tcx, &mut range.end);
            if r.is_err() {
                *expr.val = ExpVal::For(ident, range, b);
                return r;
            }
            let ids = collect_all_assign_in_array(&b.val);
            let ids = tcx_extend(tcx, ids);
            tcx_push(tcx, &ident, StaticType::Int64, Scope::Local);
            tcx_enter(tcx);
            let r = type_block(tcx, &mut b);
            if r.is_err() {
                *expr.val = ExpVal::For(ident, range, b);
                return r;
            }
            tcx_restore(tcx);
            tcx_pop(tcx, &ident);
            tcx_unextend(tcx, ids);
            *expr.val = ExpVal::For(ident, range, b);
            proof {
                assert(shaped(tab, env0, e0, *expr));
            }
            Ok(())
        },
        other => {
            proof {
                assert(false);
            }
            *expr.val = other;
            proof {
                assert(shaped(tab, env0, e0, *expr));
            }
            Ok(())
        },
    }
}

fn entity_types_of<'a>(tcx: &TypingContext<'a>, name: &String, n: usize) -> (r: Vec<StaticType>)
    requires
        ready(*tcx),
    ensures
        types_view(r@) == entity_types(tables_of(*tcx), name@, n as nat),
{
    let mut entity: Vec<StaticType> = Vec::new();
    match find_key(&tcx.structures, name.as_str()) {
        Some(k) => {
            proof {
                lemma_key_pos(tcx.structures@, k as int);
            }
            let fields = &tcx.structures[k].1.fields;
            let mut i: usize = 0;
            while i < fields.len()
                invariant
                    i <= fields.len(),
                    entity@.len() == i,
                    forall|j: int| 0 <= j < i ==> #[trigger] entity@[j]@ == fields@[j].ty@,
                decreases fields.len() - i,
            {
                entity.push(fields[i].ty.duplicate());
                i = i + 1;
            }
            assert(types_view(entity@) =~= fields@.map_values(|p: Param<'a>| p.ty@));
        },
        None => {
            let fp = find_key(&tcx.functions, name.as_str());
            let single = match fp {
                Some(k) => tcx.functions[k].1.len() == 1,
                None => false,
            };
            if single {
                let k = fp.unwrap();
                proof {
                    lemma_key_pos(tcx.functions@, k as int);
                }
                let params = &tcx.functions[k].1[0].1;
                let mut i: usize = 0;
                while i < params.len()
                    invariant
                        i <= params.len(),
                        entity@.len() == i,
                        forall|j: int| 0 <= j < i ==> #[trigger] entity@[j]@ == params@[j]@,
                    decreases params.len() - i,
                {
                    entity.push(params[i].duplicate());
                    i = i + 1;
                }
                assert(types_view(entity@) =~= types_view(params@));
            } else {
                proof {
                    if let Some(k) = fp {
                        lemma_key_pos(tcx.functions@, k as int);
                    }
                }
                let mut i: usize = 0;
                while i < n
                    invariant
                        i <= n,
                        entity@.len() == i,
                        forall|j: int| 0 <= j < i ==> #[trigger] entity@[j]@ == StaticTypeV::Any,
                    decreases n - i,
                {
                    entity.push(StaticType::Any);
                    i = i + 1;
                }
                assert(types_view(entity@) =~= Seq::new(n as nat, |i: int| StaticTypeV::Any));
            }
        },
    }
    entity
}

fn user_call_result<'a>(tcx: &TypingContext<'a>, span: Span<'a>, name: &String, args: &Vec<Exp<'a>>) -> (r: Result<StaticType, ReadError<'a>>)
    requires
        ready(*tcx),
        !(user_call_out(tables_of(*tcx), env_of(*tcx), span, name@, old_types(args@)) is Stuck),
    ensures
        match user_call_out(tables_of(*tcx), env_of(*tcx), span, name@, old_types(args@)) {
            TyOut::Done(_, t) => r is Ok && r->Ok_0@ == t[0],
            TyOut::Fail(sp, msg, _) => r is Err && r->Err_0.spec_span() == sp && r->Err_0.spec_message() == msg,
            TyOut::Stuck => false,
        },
{
    let ghost tab = tables_of(*tcx);
    match tcx.get_potentially_unique_return_type_for_function(name) {
        Some(t) => Ok(t),
        None => {
            let mut st_args: Vec<StaticType> = Vec::new();
            let mut st_copy: Vec<StaticType> = Vec::new();
            let mut i: usize = 0;
            while i < args.len()
                invariant
                    i <= args.len(),
                    st_args@.len() == i,
                    st_copy@.len() == i,
                    forall|j: int| 0 <= j < i ==> #[trigger] st_args@[j]@ == args@[j].static_ty@,
                    forall|j: int| 0 <= j < i ==> #[trigger] st_copy@[j]@ == args@[j].static_ty@,
                decreases args.len() - i,
            {
                st_args.push(args[i].static_ty.duplicate());
                st_copy.push(args[i].static_ty.duplicate());
                i = i + 1;
            }
            assert(types_view(st_args@) =~= old_types(args@));
            assert(types_view(st_copy@) =~= old_types(args@));
            match find_key(&tcx.functions, name.as_str()) {
                None => Ok(StaticType::Any),
                Some(k) => {
                    proof {
                        lemma_key_pos(tcx.functions@, k as int);
                    }
                    let sigs = &tcx.functions[k].1;
                    assert(sigs@ == sigs_of(tab, name@));
                    let amb = is_this_call_ambiguous(st_args, sigs);
                    if amb {
                        let sig = match compute_ambiguous_signature(st_copy, sigs) {
                            Some(s) => format_signature(s),
                            None => String::from_str("no information on the signature"),
                        };
                        proof {
                            reveal_strlit("no information on the signature");
                            reveal_strlit("Ambiguous call to function '");
                            reveal_strlit(" (");
                            reveal_strlit(")', cannot be resolve at runtime through dynamic dispatch");
                        }
                        let mut msg = cat3("Ambiguous call to function '", name.as_str(), " (");
                        msg.append(sig.as_str());
                        msg.append(")', cannot be resolve at runtime through dynamic dispatch");
                        return fail(span, msg);
                    }
                    Ok(StaticType::Any)
                },
            }
        },
    }
}

#[verifier::spinoff_prover]
#[verifier::rlimit(100)]
fn type_call<'a>(tcx: &mut TypingContext<'a>, expr: &mut Exp<'a>) -> (r: Result<(), ReadError<'a>>)
    requires
        ready(*old(tcx)),
        (*old(expr).val) is Call,
        !(ty_call(tables_of(*old(tcx)), env_of(*old(tcx)), *old(expr)) is Stuck),
    ensures
        typed(ty_call(tables_of(*old(tcx)), env_of(*old(tcx)), *old(expr)), r, *old(tcx), *final(tcx)),
        final(expr).span == old(expr).span,
        r is Ok ==> final(expr).static_ty@ == ty_call(tables_of(*old(tcx)), env_of(*old(tcx)), *old(expr))->Done_1[0],
        r is Ok ==> shaped(tables_of(*old(tcx)), env_of(*old(tcx)), *old(expr), *final(expr)),
    decreases *old(expr), 0int,
{
    let ghost e0 = *expr;
    let ghost tab = tables_of(*tcx);
    let ghost env0 = env_of(*tcx);
    let span = expr.span;
    let mut v = ExpVal::Int(0);
    std::mem::swap(&mut v, &mut *expr.val);
    match v {
        ExpVal::Call(name, mut args) => {
            let ghost args0 = args;
            proof {
                assert(decreases_to!(args0 => args0@));
                reveal_strlit("div");
                reveal_strlit("print");
            }
            if str_eq(name.as_str(), "div") {
                if args.len() != 2 {
                    proof {
                        reveal_strlit("`div` was called here with less or more than two arguments!");
                    }
                    let msg = String::from_str("`div` was called here with less or more than two arguments!");
                    *expr.val = ExpVal::Call(name, args);
                    return fail(span, msg);
                }
                let mut a1 = args.remove(1);
                let mut a0 = args.remove(0);
                proof {
                    assert(decreases_to!(args0@ => args0@[0]));
                    assert(decreases_to!(args0@ => args0@[1]));
                }
                let r = type_expression(tcx, &mut a0);
                if r.is_err() {
                    args.push(a0);
                    args.push(a1);
                    *expr.val = ExpVal::Call(name, args);
                    return r;
                }
                let r = type_expression(tcx, &mut a1);
                if r.is_err() {
                    args.push(a0);
                    args.push(a1);
                    *expr.val = ExpVal::Call(name, args);
                    return r;
                }
                let int_ok = any_or_ty(&a0.static_ty, &StaticType::Int64) && any_or_ty(&a1.static_ty, &StaticType::Int64);
                args.push(a0);
                args.push(a1);
                *expr.val = ExpVal::Call(name, args);
                if int_ok {
                    expr.static_ty = StaticType::Int64;
                }
                proof {
                    assert(shaped(tab, env0, e0, *expr));
                }
                return Ok(());
            }
            if str_eq(name.as_str(), "print") {
                let r = type_list(tcx, &mut args);
                *expr.val = ExpVal::Call(name, args);
                if r.is_err() {
                    return r;
                }
                expr.static_ty = StaticType::Nothing;
                proof {
                    assert(shaped(tab, env0, e0, *expr));
                }
                return Ok(());
            }
            let builtin = is_builtin_function(&name);
            let sp = find_key(&tcx.structures, name.as_str());
            let fp = find_key(&tcx.functions, name.as_str());
            if !builtin && sp.is_none() && fp.is_none() {
                proof {
                    reveal_strlit("There is no such function or structure named '");
                    reveal_strlit("'");
                }
                let msg = cat3("There is no such function or structure named '", name.as_str(), "'");
                *expr.val = ExpVal::Call(name, args);
                return fail(span, msg);
            }
            let entity = entity_types_of(tcx, &name, args.len());
            let ghost m = pairs(args0@.len() as int, entity@.len() as int);
            let r = type_args(tcx, &mut args, &entity);
            if r.is_err() {
                *expr.val = ExpVal::Call(name, args);
                return r;
            }
            assert(old_types(args@) =~= ty_args(tab, env0, args0@, types_view(entity@), m)->Done_1 + old_types(
                args0@.subrange(m, args0@.len() as int),
            )) by {
                lemma_args_len(tab, env0, args0@, types_view(entity@), m);
            }
            let r = user_call_result(tcx, span, &name, &args);
            *expr.val = ExpVal::Call(name, args);
            match r {
                Ok(t) => {
                    expr.static_ty = t;
                    proof {
                        assert(shaped(tab, env0, e0, *expr));
                    }
                    Ok(())
                },
                Err(e) => Err(e),
            }
        },
        other => {
            proof {
                assert(false);
            }
            *expr.val = other;
            proof {
                assert(shaped(tab, env0, e0, *expr));
            }
            Ok(())
        },
    }
}

} // verus!

verus! {

/// An operator types as the language says: `+`, `-`, `×`, `/` and `^` take
/// integers and give an integer; `&&` and `||` take booleans and give a
/// boolean; `<`, `≤`, `>` and `≥` take integers or booleans and give a
/// boolean; `==` and `!=` take anything and give a boolean. An operand of
/// type `Any` is accepted everywhere; the first operand that is refused is
/// the place of the error. The environment is left as it is.
pub proof fn law_operator_types<'a>(op: BinOp, sa: Span<'a>, sb: Span<'a>, ta: StaticTypeV, tb: StaticTypeV, env: EnvV)
    ensures
        ({
            let arith = op is Plus || op is Minus || op is Times || op is Mod || op is Pow;
            let logic = op is And || op is Or;
            let order = op is Lt || op is Leq || op is Gt || op is Geq;
            let accepts = |t: StaticTypeV|
                t is Any || (arith && t is Int64) || (logic && t is Bool) || (order && (t is Int64 || t is Bool)) || op is Equ
                    || op is Neq;
            let r = bin_op_out(op, sa, sb, ta, tb, env);
            &&& (accepts(ta) && accepts(tb)) ==> r == TyOut::Done(
                env,
                seq![if arith { StaticTypeV::Int64 } else { StaticTypeV::Bool }],
            )
            &&& !accepts(ta) ==> (r is Fail && r->Fail_0 == sa && !r->Fail_2)
            &&& (accepts(ta) && !accepts(tb)) ==> (r is Fail && r->Fail_0 == sb && !r->Fail_2)
        }),
{
}

} // verus!
