use vstd::prelude::*;

use crate::parser::ast::{Else, ElseVal, Exp, ExpVal, StaticTypeV};
use super::fill::{
    annotated, args_ann, block_ann, else_ann, list_ann, shaped, ty_args, ty_list, EnvV, Tables,
};
use super::return_checks::{returns_err, returns_err_else, returns_err_list};

verus! {

// The checks of `return`s read of a typed tree only what typing fixes: its
// shape, its regions and its types. So two trees typed from the same one
// give the same result.

/// Each of the first `k` expressions of `s2` is annotated from `s`.
pub proof fn lemma_list_ann_at<'a>(tab: Tables<'a>, env: EnvV, s: Seq<Exp<'a>>, s2: Seq<Exp<'a>>, i: int)
    requires
        list_ann(tab, env, s, s2),
        0 <= i < s2.len(),
    ensures
        i < s.len(),
        annotated(tab, ty_list(tab, env, s, i)->Done_0, s[i], s2[i]),
    decreases s2.len(),
{
    if i < s2.len() - 1 {
        lemma_list_ann_at(tab, env, s, s2.drop_last(), i);
    }
}

/// The same for arguments typed against expected types.
pub proof fn lemma_args_ann_at<'a>(
    tab: Tables<'a>,
    env: EnvV,
    s: Seq<Exp<'a>>,
    ex: Seq<StaticTypeV>,
    s2: Seq<Exp<'a>>,
    i: int,
)
    requires
        args_ann(tab, env, s, ex, s2),
        0 <= i < s2.len(),
    ensures
        i < s.len(),
        annotated(tab, ty_args(tab, env, s, ex, i)->Done_0, s[i], s2[i]),
    decreases s2.len(),
{
    if i < s2.len() - 1 {
        lemma_args_ann_at(tab, env, s, ex, s2.drop_last(), i);
    }
}

/// Lists whose expressions give the same result give the same result.
pub proof fn lemma_returns_list_pointwise<'a>(s1: Seq<Exp<'a>>, s2: Seq<Exp<'a>>, k: int, t: StaticTypeV)
    requires
        s1.len() == s2.len(),
        0 <= k <= s1.len(),
        forall|i: int| 0 <= i < k ==> returns_err(#[trigger] s1[i], t) == returns_err(s2[i], t),
    ensures
        returns_err_list(s1, k, t) == returns_err_list(s2, k, t),
    decreases k,
{
    if k > 0 {
        lemma_returns_list_pointwise(s1, s2, k - 1, t);
    }
}

/// Two lists typed from the same one give the same result.
pub proof fn lemma_returns_list_ann<'a>(tab: Tables<'a>, env: EnvV, s: Seq<Exp<'a>>, s1: Seq<Exp<'a>>, s2: Seq<Exp<'a>>, t: StaticTypeV)
    requires
        list_ann(tab, env, s, s1),
        list_ann(tab, env, s, s2),
        s1.len() == s.len(),
        s2.len() == s.len(),
    ensures
        returns_err_list(s1, s.len() as int, t) == returns_err_list(s2, s.len() as int, t),
    decreases s, 1int,
{
    assert forall|i: int| 0 <= i < s.len() implies returns_err(#[trigger] s1[i], t) == returns_err(s2[i], t) by {
        lemma_list_ann_at(tab, env, s, s1, i);
        lemma_list_ann_at(tab, env, s, s2, i);
        assert(decreases_to!(s => s[i]));
        lemma_returns_shaped(tab, ty_list(tab, env, s, i)->Done_0, s[i], s1[i], s2[i], t);
    }
    lemma_returns_list_pointwise(s1, s2, s.len() as int, t);
}

/// Two expressions typed from the same one give the same result.
pub proof fn lemma_returns_shaped<'a>(tab: Tables<'a>, env: EnvV, e: Exp<'a>, f1: Exp<'a>, f2: Exp<'a>, t: StaticTypeV)
    requires
        shaped(tab, env, e, f1),
        shaped(tab, env, e, f2),
    ensures
        returns_err(f1, t) == returns_err(f2, t),
    decreases e, 1int,
{
    match *e.val {
        ExpVal::Assign(..) => lemma_returns_assign(tab, env, e, f1, f2, t),
        ExpVal::BinOp(..) => lemma_returns_binop(tab, env, e, f1, f2, t),
        ExpVal::UnaryOp(..) => lemma_returns_unaryop(tab, env, e, f1, f2, t),
        ExpVal::RMul(..) => lemma_returns_rmul(tab, env, e, f1, f2, t),
        ExpVal::Call(..) => lemma_returns_call(tab, env, e, f1, f2, t),
        ExpVal::Block(..) => lemma_returns_block(tab, env, e, f1, f2, t),
        ExpVal::LMul(..) => lemma_returns_lmul(tab, env, e, f1, f2, t),
        ExpVal::For(..) => lemma_returns_for(tab, env, e, f1, f2, t),
        ExpVal::If(..) => lemma_returns_if(tab, env, e, f1, f2, t),
        ExpVal::While(..) => lemma_returns_while(tab, env, e, f1, f2, t),
        ExpVal::Return(..) => lemma_returns_return(tab, env, e, f1, f2, t),
        _ => lemma_returns_leaf(tab, env, e, f1, f2, t),
    }
}

#[verifier::spinoff_prover]
#[verifier::rlimit(100)]
proof fn lemma_returns_assign<'a>(tab: Tables<'a>, env: EnvV, e: Exp<'a>, f1: Exp<'a>, f2: Exp<'a>, t: StaticTypeV)
    requires
        shaped(tab, env, e, f1),
        shaped(tab, env, e, f2),
        (*e.val) is Assign,
    ensures
        returns_err(f1, t) == returns_err(f2, t),
    decreases e, 0int,
{
    assert(decreases_to!(e => e.val));
    match *e.val {
        ExpVal::Assign(lv, x) => {
            let (x1, x2) = (f1.val->Assign_1, f2.val->Assign_1);
            match lv.in_exp {
                None => {
                    assert(annotated(tab, env, x, x1));
                    assert(annotated(tab, env, x, x2));
                    lemma_returns_shaped(tab, env, x, x1, x2, t);
                },
                Some(p) => {
                    assert(annotated(tab, super::fill::ty_exp(tab, env, p)->Done_0, x, x1));
                    assert(annotated(tab, super::fill::ty_exp(tab, env, p)->Done_0, x, x2));
                    lemma_returns_shaped(tab, super::fill::ty_exp(tab, env, p)->Done_0, x, x1, x2, t);
                },
            }
        },
        _ => {},
    }
}

#[verifier::spinoff_prover]
#[verifier::rlimit(100)]
proof fn lemma_returns_binop<'a>(tab: Tables<'a>, env: EnvV, e: Exp<'a>, f1: Exp<'a>, f2: Exp<'a>, t: StaticTypeV)
    requires
        shaped(tab, env, e, f1),
        shaped(tab, env, e, f2),
        (*e.val) is BinOp,
    ensures
        returns_err(f1, t) == returns_err(f2, t),
    decreases e, 0int,
{
    assert(decreases_to!(e => e.val));
    match *e.val {
        ExpVal::BinOp(_, a, b) => {
            assert(annotated(tab, env, a, f1.val->BinOp_1));
            assert(annotated(tab, env, a, f2.val->BinOp_1));
            lemma_returns_shaped(tab, env, a, f1.val->BinOp_1, f2.val->BinOp_1, t);
            assert(annotated(tab, super::fill::ty_exp(tab, env, a)->Done_0, b, f1.val->BinOp_2));
            assert(annotated(tab, super::fill::ty_exp(tab, env, a)->Done_0, b, f2.val->BinOp_2));
            lemma_returns_shaped(tab, super::fill::ty_exp(tab, env, a)->Done_0, b, f1.val->BinOp_2, f2.val->BinOp_2, t);
        },
        _ => {},
    }
}

#[verifier::spinoff_prover]
#[verifier::rlimit(100)]
proof fn lemma_returns_unaryop<'a>(tab: Tables<'a>, env: EnvV, e: Exp<'a>, f1: Exp<'a>, f2: Exp<'a>, t: StaticTypeV)
    requires
        shaped(tab, env, e, f1),
        shaped(tab, env, e, f2),
        (*e.val) is UnaryOp,
    ensures
        returns_err(f1, t) == returns_err(f2, t),
    decreases e, 0int,
{
    assert(decreases_to!(e => e.val));
    match *e.val {
        ExpVal::UnaryOp(_, x) => {
            assert(annotated(tab, env, x, f1.val->UnaryOp_1));
            assert(annotated(tab, env, x, f2.val->UnaryOp_1));
            lemma_returns_shaped(tab, env, x, f1.val->UnaryOp_1, f2.val->UnaryOp_1, t);
        },
        _ => {},
    }
}

#[verifier::spinoff_prover]
#[verifier::rlimit(100)]
proof fn lemma_returns_rmul<'a>(tab: Tables<'a>, env: EnvV, e: Exp<'a>, f1: Exp<'a>, f2: Exp<'a>, t: StaticTypeV)
    requires
        shaped(tab, env, e, f1),
        shaped(tab, env, e, f2),
        (*e.val) is RMul,
    ensures
        returns_err(f1, t) == returns_err(f2, t),
    decreases e, 0int,
{
    assert(decreases_to!(e => e.val));
    match *e.val {
        ExpVal::RMul(x, _) => {
            assert(annotated(tab, env, x, f1.val->RMul_0));
            assert(annotated(tab, env, x, f2.val->RMul_0));
            lemma_returns_shaped(tab, env, x, f1.val->RMul_0, f2.val->RMul_0, t);
        },
        _ => {},
    }
}

#[verifier::spinoff_prover]
#[verifier::rlimit(100)]
proof fn lemma_returns_call<'a>(tab: Tables<'a>, env: EnvV, e: Exp<'a>, f1: Exp<'a>, f2: Exp<'a>, t: StaticTypeV)
    requires
        shaped(tab, env, e, f1),
        shaped(tab, env, e, f2),
        (*e.val) is Call,
    ensures
        returns_err(f1, t) == returns_err(f2, t),
    decreases e, 0int,
{
    assert(decreases_to!(e => e.val));
    match *e.val {
        ExpVal::Call(name, args) => {
            assert(decreases_to!(args => args@));
            let s = args@;
            let s1 = (f1.val->Call_1)@;
            let s2 = (f2.val->Call_1)@;
            if name@ == "div"@ {
                assert forall|i: int| 0 <= i < s.len() implies returns_err(#[trigger] s1[i], t) == returns_err(s2[i], t) by {
                    assert(decreases_to!(s => s[i]));
                    if i == 0 {
                        assert(annotated(tab, env, s[0], s1[0]));
                        assert(annotated(tab, env, s[0], s2[0]));
                        lemma_returns_shaped(tab, env, s[0], s1[0], s2[0], t);
                    } else {
                        assert(annotated(tab, super::fill::ty_exp(tab, env, s[0])->Done_0, s[1], s1[1]));
                        assert(annotated(tab, super::fill::ty_exp(tab, env, s[0])->Done_0, s[1], s2[1]));
                        lemma_returns_shaped(tab, super::fill::ty_exp(tab, env, s[0])->Done_0, s[1], s1[1], s2[1], t);
                    }
                }
                lemma_returns_list_pointwise(s1, s2, s.len() as int, t);
            } else if name@ == "print"@ {
                lemma_returns_list_ann(tab, env, s, s1, s2, t);
            } else {
                let ex = super::fill::entity_types(tab, name@, s.len());
                let m = super::func_signatures::pairs(s.len() as int, ex.len() as int);
                assert forall|i: int| 0 <= i < s.len() implies returns_err(#[trigger] s1[i], t) == returns_err(s2[i], t) by {
                    if i < m {
                        lemma_args_ann_at(tab, env, s, ex, s1.take(m), i);
                        lemma_args_ann_at(tab, env, s, ex, s2.take(m), i);
                        assert(s1.take(m)[i] == s1[i]);
                        assert(s2.take(m)[i] == s2[i]);
                        assert(decreases_to!(s => s[i]));
                        lemma_returns_shaped(tab, ty_args(tab, env, s, ex, i)->Done_0, s[i], s1[i], s2[i], t);
                    } else {
                        assert(s1.skip(m)[i - m] == s1[i]);
                        assert(s2.skip(m)[i - m] == s2[i]);
                    }
                }
                lemma_returns_list_pointwise(s1, s2, s.len() as int, t);
            }
        },
        _ => {},
    }
}

#[verifier::spinoff_prover]
#[verifier::rlimit(100)]
proof fn lemma_returns_block<'a>(tab: Tables<'a>, env: EnvV, e: Exp<'a>, f1: Exp<'a>, f2: Exp<'a>, t: StaticTypeV)
    requires
        shaped(tab, env, e, f1),
        shaped(tab, env, e, f2),
        (*e.val) is Block,
    ensures
        returns_err(f1, t) == returns_err(f2, t),
    decreases e, 0int,
{
    assert(decreases_to!(e => e.val));
    match *e.val {
        ExpVal::Block(b) => {
            assert(decreases_to!(b => b.val));
            assert(decreases_to!(b.val => b.val@));
            let (b1, b2) = (f1.val->Block_0, f2.val->Block_0);
            assert(block_ann(tab, env, b, b1));
            assert(block_ann(tab, env, b, b2));
            lemma_returns_list_ann(tab, env, b.val@, b1.val@, b2.val@, t);
        },
        _ => {},
    }
}

#[verifier::spinoff_prover]
#[verifier::rlimit(100)]
proof fn lemma_returns_lmul<'a>(tab: Tables<'a>, env: EnvV, e: Exp<'a>, f1: Exp<'a>, f2: Exp<'a>, t: StaticTypeV)
    requires
        shaped(tab, env, e, f1),
        shaped(tab, env, e, f2),
        (*e.val) is LMul,
    ensures
        returns_err(f1, t) == returns_err(f2, t),
    decreases e, 0int,
{
    assert(decreases_to!(e => e.val));
    match *e.val {
        ExpVal::LMul(_, b) => {
            assert(decreases_to!(b => b.val));
            assert(decreases_to!(b.val => b.val@));
            let (b1, b2) = (f1.val->LMul_1, f2.val->LMul_1);
            assert(block_ann(tab, env, b, b1));
            assert(block_ann(tab, env, b, b2));
            lemma_returns_list_ann(tab, env, b.val@, b1.val@, b2.val@, t);
        },
        _ => {},
    }
}

#[verifier::spinoff_prover]
#[verifier::rlimit(100)]
proof fn lemma_returns_for<'a>(tab: Tables<'a>, env: EnvV, e: Exp<'a>, f1: Exp<'a>, f2: Exp<'a>, t: StaticTypeV)
    requires
        shaped(tab, env, e, f1),
        shaped(tab, env, e, f2),
        (*e.val) is For,
    ensures
        returns_err(f1, t) == returns_err(f2, t),
    decreases e, 0int,
{
    assert(decreases_to!(e => e.val));
    match *e.val {
        ExpVal::For(ident, range, b) => {
            assert(decreases_to!(b => b.val));
            assert(decreases_to!(b.val => b.val@));
            let env2 = super::fill::ty_exp(tab, env, range.start)->Done_0;
            let env3 = super::fill::ty_exp(tab, env2, range.end)->Done_0;
            let ids = super::assign::assigns_list(b.val@, b.val@.len() as int);
            let env4 = super::fill::env_enter(
                super::fill::env_push(super::fill::env_extend(env3, ids), ident.name@, (StaticTypeV::Int64, crate::parser::ast::Scope::Local)),
            );
            let (b1, b2) = (f1.val->For_2, f2.val->For_2);
            assert(block_ann(tab, env4, b, b1));
            assert(block_ann(tab, env4, b, b2));
            lemma_returns_list_ann(tab, env4, b.val@, b1.val@, b2.val@, t);
        },
        _ => {},
    }
}

#[verifier::spinoff_prover]
#[verifier::rlimit(100)]
proof fn lemma_returns_if<'a>(tab: Tables<'a>, env: EnvV, e: Exp<'a>, f1: Exp<'a>, f2: Exp<'a>, t: StaticTypeV)
    requires
        shaped(tab, env, e, f1),
        shaped(tab, env, e, f2),
        (*e.val) is If,
    ensures
        returns_err(f1, t) == returns_err(f2, t),
    decreases e, 0int,
{
    assert(decreases_to!(e => e.val));
    match *e.val {
        ExpVal::If(c, b, u) => {
            assert(decreases_to!(b => b.val));
            assert(decreases_to!(b.val => b.val@));
            let env2 = super::fill::ty_exp(tab, env, c)->Done_0;
            let env3 = super::fill::ty_block(tab, super::fill::env_enter(env2), b)->Done_0;
            assert(annotated(tab, env, c, f1.val->If_0));
            assert(annotated(tab, env, c, f2.val->If_0));
            lemma_returns_shaped(tab, env, c, f1.val->If_0, f2.val->If_0, t);
            assert(block_ann(tab, super::fill::env_enter(env2), b, f1.val->If_1));
            assert(block_ann(tab, super::fill::env_enter(env2), b, f2.val->If_1));
            lemma_returns_list_ann(tab, super::fill::env_enter(env2), b.val@, (f1.val->If_1).val@, (f2.val->If_1).val@, t);
            lemma_returns_else(tab, super::fill::env_restore(env3), u, f1.val->If_2, f2.val->If_2, t);
        },
        _ => {},
    }
}

#[verifier::spinoff_prover]
#[verifier::rlimit(100)]
proof fn lemma_returns_while<'a>(tab: Tables<'a>, env: EnvV, e: Exp<'a>, f1: Exp<'a>, f2: Exp<'a>, t: StaticTypeV)
    requires
        shaped(tab, env, e, f1),
        shaped(tab, env, e, f2),
        (*e.val) is While,
    ensures
        returns_err(f1, t) == returns_err(f2, t),
    decreases e, 0int,
{
    assert(decreases_to!(e => e.val));
    match *e.val {
        ExpVal::While(c, b) => {
            assert(decreases_to!(b => b.val));
            assert(decreases_to!(b.val => b.val@));
            let env2 = super::fill::ty_exp(tab, env, c)->Done_0;
            let ids = super::assign::assigns_list(b.val@, b.val@.len() as int);
            assert(annotated(tab, env, c, f1.val->While_0));
            assert(annotated(tab, env, c, f2.val->While_0));
            lemma_returns_shaped(tab, env, c, f1.val->While_0, f2.val->While_0, t);
            assert(block_ann(tab, super::fill::env_enter(super::fill::env_extend(env2, ids)), b, f1.val->While_1));
            assert(block_ann(tab, super::fill::env_enter(super::fill::env_extend(env2, ids)), b, f2.val->While_1));
            lemma_returns_list_ann(
                tab,
                super::fill::env_enter(super::fill::env_extend(env2, ids)),
                b.val@,
                (f1.val->While_1).val@,
                (f2.val->While_1).val@,
                t,
            );
        },
        _ => {},
    }
}

#[verifier::spinoff_prover]
proof fn lemma_returns_return<'a>(tab: Tables<'a>, env: EnvV, e: Exp<'a>, f1: Exp<'a>, f2: Exp<'a>, t: StaticTypeV)
    requires
        shaped(tab, env, e, f1),
        shaped(tab, env, e, f2),
        (*e.val) is Return,
    ensures
        returns_err(f1, t) == returns_err(f2, t),
{
    match *e.val {
        ExpVal::Return(Some(x)) => {
            assert(annotated(tab, env, x, (f1.val->Return_0)->Some_0));
            assert(annotated(tab, env, x, (f2.val->Return_0)->Some_0));
        },
        _ => {},
    }
}

#[verifier::spinoff_prover]
proof fn lemma_returns_leaf<'a>(tab: Tables<'a>, env: EnvV, e: Exp<'a>, f1: Exp<'a>, f2: Exp<'a>, t: StaticTypeV)
    requires
        shaped(tab, env, e, f1),
        shaped(tab, env, e, f2),
        (*e.val) is Int || (*e.val) is Str || (*e.val) is Bool || (*e.val) is Mul || (*e.val) is LValue,
    ensures
        returns_err(f1, t) == returns_err(f2, t),
{
}

/// Two `else` branches typed from the same one give the same result.
pub proof fn lemma_returns_else<'a>(tab: Tables<'a>, env: EnvV, u: Else<'a>, u1: Else<'a>, u2: Else<'a>, t: StaticTypeV)
    requires
        else_ann(tab, env, u, u1),
        else_ann(tab, env, u, u2),
    ensures
        returns_err_else(u1, t) == returns_err_else(u2, t),
    decreases u, 0int,
{
    assert(decreases_to!(u => u.val));
    match *u.val {
        ElseVal::End => {},
        ElseVal::Else(b) => {
            assert(decreases_to!(b => b.val));
            assert(decreases_to!(b.val => b.val@));
            assert(block_ann(tab, super::fill::env_enter(env), b, u1.val->Else_0));
            assert(block_ann(tab, super::fill::env_enter(env), b, u2.val->Else_0));
            lemma_returns_list_ann(tab, super::fill::env_enter(env), b.val@, (u1.val->Else_0).val@, (u2.val->Else_0).val@, t);
        },
        ElseVal::ElseIf(c, b, rest) => {
            assert(decreases_to!(b => b.val));
            assert(decreases_to!(b.val => b.val@));
            let env2 = super::fill::ty_exp(tab, env, c)->Done_0;
            let env3 = super::fill::ty_block(tab, super::fill::env_enter(env2), b)->Done_0;
            assert(annotated(tab, env, c, u1.val->ElseIf_0));
            assert(annotated(tab, env, c, u2.val->ElseIf_0));
            assert(block_ann(tab, super::fill::env_enter(env2), b, u1.val->ElseIf_1));
            assert(block_ann(tab, super::fill::env_enter(env2), b, u2.val->ElseIf_1));
            lemma_returns_shaped(tab, env, c, u1.val->ElseIf_0, u2.val->ElseIf_0, t);
            lemma_returns_list_ann(tab, super::fill::env_enter(env2), b.val@, (u1.val->ElseIf_1).val@, (u2.val->ElseIf_1).val@, t);
            lemma_returns_else(tab, super::fill::env_restore(env3), rest, u1.val->ElseIf_2, u2.val->ElseIf_2, t);
        },
    }
}

} // verus!
