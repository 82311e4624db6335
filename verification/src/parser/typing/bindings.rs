use vstd::prelude::*;

use crate::parser::ast::{Block, Else, ElseVal, Exp, ExpVal, Scope, StaticTypeV};
use super::assign::assigns_list;
use super::fill::{
    env_enter, env_extend, env_pop, env_push, env_restore, env_unextend, ty_args, ty_assign, ty_block, ty_call, ty_else,
    ty_exp, ty_for, ty_list, ty_lvalue, ty_simple_assign, EnvV, Tables, TyOut,
};

verus! {

// Typing binds variables only for a while: a loop binds the variables its
// body assigns, and its counter, and unbinds them once its body is typed.

/// Typing that gives `out` from `before`, where it succeeds, leaves every
/// name bound as before.
pub open spec fn keeps_bindings<'a>(before: EnvV, out: TyOut<'a>) -> bool {
    out is Done ==> out->Done_0.stacks == before.stacks
}

/// Unbinding the variables bound for some identifiers, and a variable bound
/// above them, gives back the bindings.
proof fn lemma_unbind<'a>(env: EnvV, ids: Seq<(crate::automata::line_counter::Span<'a>, Seq<char>)>, name: Seq<char>, v: (StaticTypeV, Scope), later: EnvV)
    requires
        later.stacks == env_push(env_extend(env, ids), name, v).stacks,
    ensures
        env_unextend(env_pop(later, name), ids).stacks == env.stacks,
{
    let r = env_unextend(env_pop(later, name), ids);
    assert forall|k: Seq<char>| #[trigger] (r.stacks)(k) == (env.stacks)(k) by {
        let base = (env.stacks)(k) + super::data::fresh_locals(super::fill::count_v(ids, k));
        assert((env_extend(env, ids).stacks)(k) == base);
        if k == name {
            assert(base.push(v).drop_last() =~= base);
        }
        assert((env_pop(later, name).stacks)(k) == base);
        assert(base.take((env.stacks)(k).len() as int) =~= (env.stacks)(k));
    }
    assert(r.stacks =~= env.stacks);
}

/// Unbinding the variables bound for some identifiers gives back the
/// bindings.
proof fn lemma_unextend<'a>(env: EnvV, ids: Seq<(crate::automata::line_counter::Span<'a>, Seq<char>)>, later: EnvV)
    requires
        later.stacks == env_extend(env, ids).stacks,
    ensures
        env_unextend(later, ids).stacks == env.stacks,
{
    let r = env_unextend(later, ids);
    assert forall|k: Seq<char>| #[trigger] (r.stacks)(k) == (env.stacks)(k) by {
        let base = (env.stacks)(k) + super::data::fresh_locals(super::fill::count_v(ids, k));
        assert((later.stacks)(k) == base);
        assert(base.take((env.stacks)(k).len() as int) =~= (env.stacks)(k));
    }
    assert(r.stacks =~= env.stacks);
}

/// Typing an expression, where it succeeds, leaves every name bound as
/// before: what a loop binds is unbound after it.
#[verifier::spinoff_prover]
#[verifier::rlimit(100)]
pub proof fn law_typing_keeps_bindings<'a>(tab: Tables<'a>, env: EnvV, e: Exp<'a>)
    ensures
        keeps_bindings(env, ty_exp(tab, env, e)),
    decreases e, 1int,
{
    assert(decreases_to!(e => e.val));
    match *e.val {
        ExpVal::Return(m) => {
            if let Some(x) = m {
                law_typing_keeps_bindings(tab, env, x);
            }
            assert(keeps_bindings(env, ty_exp(tab, env, e)));
        },
        ExpVal::Assign(lv, x) => {
            match lv.in_exp {
                None => {
                    law_typing_keeps_bindings(tab, env, x);
                    assert(keeps_bindings(env, ty_simple_assign(tab, env, lv, x)));
                },
                Some(p) => {
                    law_typing_keeps_bindings(tab, env, p);
                    if ty_exp(tab, env, p) is Done {
                        law_typing_keeps_bindings(tab, ty_exp(tab, env, p)->Done_0, x);
                    }
                },
            }
            assert(keeps_bindings(env, ty_assign(tab, env, e)));
        },
        ExpVal::BinOp(_, a, b) => {
            law_typing_keeps_bindings(tab, env, a);
            if ty_exp(tab, env, a) is Done {
                law_typing_keeps_bindings(tab, ty_exp(tab, env, a)->Done_0, b);
            }
            assert(keeps_bindings(env, ty_exp(tab, env, e)));
        },
        ExpVal::UnaryOp(_, x) => law_typing_keeps_bindings(tab, env, x),
        ExpVal::Call(name, args) => lemma_call_keeps(tab, env, e),
        ExpVal::LValue(lv) => {
            if let Some(x) = lv.in_exp {
                law_typing_keeps_bindings(tab, env, x);
            }
            assert(keeps_bindings(env, ty_lvalue(tab, env, e)));
        },
        ExpVal::Block(b) => law_block_keeps_bindings(tab, env, b),
        ExpVal::LMul(_, b) => law_block_keeps_bindings(tab, env, b),
        ExpVal::RMul(x, _) => law_typing_keeps_bindings(tab, env, x),
        ExpVal::If(c, b, u) => {
            law_typing_keeps_bindings(tab, env, c);
            if ty_exp(tab, env, c) is Done {
                let env2 = ty_exp(tab, env, c)->Done_0;
                law_block_keeps_bindings(tab, env_enter(env2), b);
                if ty_block(tab, env_enter(env2), b) is Done {
                    let env3 = ty_block(tab, env_enter(env2), b)->Done_0;
                    lemma_else_keeps(tab, env_restore(env3), u);
                }
            }
            assert(keeps_bindings(env, ty_exp(tab, env, e)));
        },
        ExpVal::For(ident, range, b) => {
            law_typing_keeps_bindings(tab, env, range.start);
            if ty_exp(tab, env, range.start) is Done {
                let env2 = ty_exp(tab, env, range.start)->Done_0;
                law_typing_keeps_bindings(tab, env2, range.end);
                if ty_exp(tab, env2, range.end) is Done {
                    let env3 = ty_exp(tab, env2, range.end)->Done_0;
                    let ids = assigns_list(b.val@, b.val@.len() as int);
                    let v = (StaticTypeV::Int64, Scope::Local);
                    let env4 = env_enter(env_push(env_extend(env3, ids), ident.name@, v));
                    law_block_keeps_bindings(tab, env4, b);
                    if ty_block(tab, env4, b) is Done {
                        let env5 = ty_block(tab, env4, b)->Done_0;
                        lemma_unbind(env3, ids, ident.name@, v, env_restore(env5));
                    }
                }
            }
            assert(keeps_bindings(env, ty_for(tab, env, e)));
        },
        ExpVal::While(c, b) => {
            law_typing_keeps_bindings(tab, env, c);
            if ty_exp(tab, env, c) is Done {
                let env2 = ty_exp(tab, env, c)->Done_0;
                let ids = assigns_list(b.val@, b.val@.len() as int);
                law_block_keeps_bindings(tab, env_enter(env_extend(env2, ids)), b);
                if ty_block(tab, env_enter(env_extend(env2, ids)), b) is Done {
                    let env3 = ty_block(tab, env_enter(env_extend(env2, ids)), b)->Done_0;
                    lemma_unextend(env2, ids, env_restore(env3));
                }
            }
            assert(keeps_bindings(env, ty_exp(tab, env, e)));
        },
        _ => {},
    }
    assert(keeps_bindings(env, ty_exp(tab, env, e)));
}

/// The same for a call: its arguments are typed one after the other.
proof fn lemma_call_keeps<'a>(tab: Tables<'a>, env: EnvV, e: Exp<'a>)
    requires
        (*e.val) is Call,
    ensures
        keeps_bindings(env, ty_exp(tab, env, e)),
    decreases e, 0int,
{
    assert(decreases_to!(e => e.val));
    match *e.val {
        ExpVal::Call(name, args) => {
            assert(decreases_to!(args => args@));
            let s = args@;
            if name@ == "div"@ {
                if s.len() == 2 {
                    assert(decreases_to!(s => s[0]));
                    assert(decreases_to!(s => s[1]));
                    law_typing_keeps_bindings(tab, env, s[0]);
                    if ty_exp(tab, env, s[0]) is Done {
                        law_typing_keeps_bindings(tab, ty_exp(tab, env, s[0])->Done_0, s[1]);
                    }
                }
            } else if name@ == "print"@ {
                law_list_keeps_bindings(tab, env, s, s.len() as int);
            } else {
                let ex = super::fill::entity_types(tab, name@, s.len());
                let m = super::func_signatures::pairs(s.len() as int, ex.len() as int);
                lemma_args_keeps(tab, env, s, ex, m);
            }
            assert(keeps_bindings(env, ty_call(tab, env, e)));
        },
        _ => {},
    }
}

/// Typing the first `k` expressions of a list, where it succeeds, leaves
/// every name bound as before.
pub proof fn law_list_keeps_bindings<'a>(tab: Tables<'a>, env: EnvV, s: Seq<Exp<'a>>, k: int)
    ensures
        keeps_bindings(env, ty_list(tab, env, s, k)),
    decreases s, k,
{
    if 0 < k <= s.len() {
        law_list_keeps_bindings(tab, env, s, k - 1);
        if ty_list(tab, env, s, k - 1) is Done {
            assert(decreases_to!(s => s[k - 1]));
            law_typing_keeps_bindings(tab, ty_list(tab, env, s, k - 1)->Done_0, s[k - 1]);
        }
    }
}

proof fn lemma_args_keeps<'a>(tab: Tables<'a>, env: EnvV, s: Seq<Exp<'a>>, ex: Seq<StaticTypeV>, k: int)
    ensures
        keeps_bindings(env, ty_args(tab, env, s, ex, k)),
    decreases s, k,
{
    if 0 < k <= s.len() && k <= ex.len() {
        lemma_args_keeps(tab, env, s, ex, k - 1);
        if ty_args(tab, env, s, ex, k - 1) is Done {
            assert(decreases_to!(s => s[k - 1]));
            law_typing_keeps_bindings(tab, ty_args(tab, env, s, ex, k - 1)->Done_0, s[k - 1]);
        }
    }
}

/// Typing a block, where it succeeds, leaves every name bound as before.
pub proof fn law_block_keeps_bindings<'a>(tab: Tables<'a>, env: EnvV, b: Block<'a>)
    ensures
        keeps_bindings(env, ty_block(tab, env, b)),
    decreases b, 1int,
{
    assert(decreases_to!(b => b.val));
    assert(decreases_to!(b.val => b.val@));
    law_list_keeps_bindings(tab, env, b.val@, b.val@.len() as int);
}

proof fn lemma_else_keeps<'a>(tab: Tables<'a>, env: EnvV, u: Else<'a>)
    ensures
        keeps_bindings(env, ty_else(tab, env, u)),
    decreases u, 1int,
{
    assert(decreases_to!(u => u.val));
    match *u.val {
        ElseVal::End => {},
        ElseVal::Else(b) => law_block_keeps_bindings(tab, env_enter(env), b),
        ElseVal::ElseIf(c, b, rest) => {
            law_typing_keeps_bindings(tab, env, c);
            if ty_exp(tab, env, c) is Done {
                let env2 = ty_exp(tab, env, c)->Done_0;
                law_block_keeps_bindings(tab, env_enter(env2), b);
                if ty_block(tab, env_enter(env2), b) is Done {
                    lemma_else_keeps(tab, env_restore(ty_block(tab, env_enter(env2), b)->Done_0), rest);
                }
            }
        },
    }
}

} // verus!
