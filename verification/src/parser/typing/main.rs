use vstd::prelude::*;

use crate::automata::read_error::ReadError;
use crate::parser::ast::{Decl, Exp, Function, Param, Scope, StaticType, StaticTypeV};
use crate::text::owned;
use super::assign::{assigns_list, collect_all_assign_in_array};
use super::data::{
    builtin_types, env_wf, find_key, has_key, keys_distinct, lemma_env_push, lemma_env_update, stack_of, types_view,
    EnvVariable, EnvironmentMap, GlobalEnvironmentState, TypedDecls, TypingContext,
};
use super::fill::{
    block_ann, keeps_tables, env_extend, env_of, env_pop, env_push, env_unextend, list_ann, outcome_matches, ready, tables_of,
    tcx_extend, tcx_pop, tcx_push, tcx_unextend, ty_block, ty_list, type_block, type_list, EnvV, Tables, TyOut,
};
use super::typed_returns::{lemma_list_ann_at, lemma_returns_list_ann};
use crate::automata::line_counter::Span;
use super::phase1::{decl_visited, names_v};
use super::return_checks::{implicit_return_err, result_is, returns_err_list, verify_explicit_returns, verify_implicit_return};

verus! {

// ---------------------------------------------------------------------------
// The first pass, over the declarations.

/// The state before any declaration.
pub open spec fn initial_state<'a>(g: GlobalEnvironmentState<'a>) -> bool {
    &&& g.structures@.len() == 0
    &&& g.functions@.len() == 0
    &&& g.function_sigs@.len() == 0
    &&& g.structure_name_by_fields@.len() == 0
    &&& g.all_structure_fields@.len() == 0
    &&& g.all_mutable_fields@.len() == 0
    &&& g.global_variables@.len() == 0
    &&& g.global_expressions@.len() == 0
    &&& types_view(g.known_types@) == builtin_types()
}

/// `gs` are the states met while the declarations `ds` are entered one
/// after the other, each with no error.
pub open spec fn gathered<'a>(ds: Seq<Decl<'a>>, gs: Seq<GlobalEnvironmentState<'a>>) -> bool {
    &&& gs.len() == ds.len() + 1
    &&& initial_state(gs[0])
    &&& forall|k: int| 0 <= k < ds.len() ==> #[trigger] decl_visited(gs[k], ds[k], Ok(()), gs[k + 1])
}

// ---------------------------------------------------------------------------
// The second pass, which types the global expressions, then the functions.

/// The tables that the first pass gathered.
pub open spec fn state_tables<'a>(g: GlobalEnvironmentState<'a>) -> Tables<'a> {
    Tables {
        functions: g.function_sigs@,
        structures: g.structures@,
        mutable_fields: g.all_mutable_fields@,
        all_fields: g.all_structure_fields@,
        by_fields: g.structure_name_by_fields@,
    }
}

/// The environment of the second pass: a global variable of type `Any` for
/// each global variable, and `nothing`, of type `Nothing`, on top.
pub open spec fn first_env<'a>(g: GlobalEnvironmentState<'a>) -> EnvV {
    EnvV {
        stacks: |k: Seq<char>|
            (if names_v(g.global_variables@).contains(k) {
                seq![(StaticTypeV::Any, Scope::Global)]
            } else {
                Seq::empty()
            }) + (if k == "nothing"@ {
                seq![(StaticTypeV::Nothing, Scope::Global)]
            } else {
                Seq::empty()
            }),
        previous: Scope::Global,
        current: Scope::Global,
    }
}

/// Typing the global expressions, in their order.
pub open spec fn globals_typed<'a>(g: GlobalEnvironmentState<'a>) -> TyOut<'a> {
    ty_list(state_tables(g), first_env(g), g.global_expressions@, g.global_expressions@.len() as int)
}

/// The first `k` parameters bound as local variables.
pub open spec fn params_pushed<'a>(env: EnvV, ps: Seq<Param<'a>>, k: int) -> EnvV
    decreases k,
{
    if k <= 0 {
        env
    } else {
        env_push(params_pushed(env, ps, k - 1), ps[k - 1].name.name@, (ps[k - 1].ty@, Scope::Local))
    }
}

/// The first `k` parameters unbound.
pub open spec fn params_popped<'a>(env: EnvV, ps: Seq<Param<'a>>, k: int) -> EnvV
    decreases k,
{
    if k <= 0 {
        env
    } else {
        env_pop(params_popped(env, ps, k - 1), ps[k - 1].name.name@)
    }
}

/// The environment in which the body of `f` is typed: its parameters, then
/// a local variable for each variable its body assigns.
pub open spec fn body_env<'a>(env: EnvV, f: Function<'a>) -> EnvV {
    env_extend(params_pushed(env, f.params@, f.params@.len() as int), assigns_list(f.body.val@, f.body.val@.len() as int))
}

/// The environment after a function whose body is typed with no error.
pub open spec fn env_after_function<'a>(tab: Tables<'a>, env: EnvV, f: Function<'a>) -> EnvV {
    match ty_block(tab, body_env(env, f), f.body) {
        TyOut::Done(e, _) => env_unextend(
            params_popped(e, f.params@, f.params@.len() as int),
            assigns_list(f.body.val@, f.body.val@.len() as int),
        ),
        _ => env,
    }
}

/// The environment after the first `j` functions.
pub open spec fn env_after_fns<'a>(tab: Tables<'a>, env: EnvV, fs: Seq<Function<'a>>, j: int) -> EnvV
    decreases j,
{
    if j <= 0 {
        env
    } else {
        env_after_function(tab, env_after_fns(tab, env, fs, j - 1), fs[j - 1])
    }
}

/// The environment after the functions of the first `i` names.
pub open spec fn env_after_entries<'a>(tab: Tables<'a>, env: EnvV, es: Seq<(String, Vec<Function<'a>>)>, i: int) -> EnvV
    decreases i,
{
    if i <= 0 {
        env
    } else {
        let e = env_after_entries(tab, env, es, i - 1);
        env_after_fns(tab, e, es[i - 1].1@, es[i - 1].1@.len() as int)
    }
}

/// The environment in which the body of the function at `(i, j)` is typed.
pub open spec fn env_at<'a>(tab: Tables<'a>, env: EnvV, es: Seq<(String, Vec<Function<'a>>)>, i: int, j: int) -> EnvV {
    body_env(env_after_fns(tab, env_after_entries(tab, env, es, i), es[i].1@, j), es[i].1@[j])
}

/// No function body meets a table entry that is missing.
pub open spec fn bodies_total<'a>(tab: Tables<'a>, env: EnvV, es: Seq<(String, Vec<Function<'a>>)>) -> bool {
    forall|i: int, j: int|
        0 <= i < es.len() && 0 <= j < es[i].1@.len() ==> !(#[trigger] ty_block(tab, env_at(tab, env, es, i, j), es[i].1@[j].body) is Stuck)
}

/// Nothing typed in the second pass meets a table entry that is missing.
pub open spec fn second_pass_total<'a>(g: GlobalEnvironmentState<'a>) -> bool {
    &&& !(globals_typed(g) is Stuck)
    &&& globals_typed(g) is Done ==> bodies_total(state_tables(g), globals_typed(g)->Done_0, g.functions@)
}

/// Typing the declarations never meets a table entry that is missing.
pub open spec fn typing_total<'a>(ds: Seq<Decl<'a>>) -> bool {
    forall|gs: Seq<GlobalEnvironmentState<'a>>| #[trigger] gathered(ds, gs) ==> second_pass_total(gs.last())
}

/// A function kept but for the types written into its body.
pub open spec fn function_kept<'a>(a: Function<'a>, b: Function<'a>) -> bool {
    &&& a.span == b.span
    &&& a.name == b.name
    &&& a.params == b.params
    &&& a.ret_ty == b.ret_ty
    &&& a.body.span == b.body.span
}

/// The declarations once typed, against the state of the first pass.
pub open spec fn typed_result<'a>(g: GlobalEnvironmentState<'a>, t: TypedDecls<'a>) -> bool {
    &&& t.structures@ == g.structures@
    &&& t.global_expressions@.len() == g.global_expressions@.len()
    &&& forall|j: int| 0 <= j < g.global_expressions@.len() ==> {
        &&& (#[trigger] t.global_expressions@[j]).span == g.global_expressions@[j].span
        &&& t.global_expressions@[j].static_ty@ == globals_typed(g)->Done_1[j]
    }
    &&& list_ann(state_tables(g), first_env(g), g.global_expressions@, t.global_expressions@)
    &&& functions_typed(state_tables(g), globals_typed(g)->Done_0, g.functions@, t.functions@)
}

/// A result of the first `k` declarations' error: the declaration at `k`
/// is refused with `e` once those before it are entered.
pub open spec fn refused_at<'a>(ds: Seq<Decl<'a>>, k: int, e: ReadError<'a>) -> bool {
    exists|gs: Seq<GlobalEnvironmentState<'a>>, g: GlobalEnvironmentState<'a>|
        #![trigger gathered(ds.take(k), gs), decl_visited(gs.last(), ds[k], Err(e), g)]
        0 <= k < ds.len() && gathered(ds.take(k), gs) && decl_visited(gs.last(), ds[k], Err(e), g)
}

fn to_env(names: &Vec<String>) -> (r: EnvironmentMap)
    requires
        names_v(names@).no_duplicates(),
    ensures
        env_wf(r@),
        forall|k: Seq<char>| #[trigger] stack_of(r@, k) == if names_v(names@).contains(k) {
            seq![(StaticTypeV::Any, Scope::Global)]
        } else {
            Seq::<(StaticTypeV, Scope)>::empty()
        },
{
    let mut env: EnvironmentMap = Vec::new();
    let mut i: usize = 0;
    while i < names.len()
        invariant
            i <= names@.len(),
            names_v(names@).no_duplicates(),
            env_wf(env@),
            forall|k: Seq<char>| #[trigger] stack_of(env@, k) == if names_v(names@.take(i as int)).contains(k) {
                seq![(StaticTypeV::Any, Scope::Global)]
            } else {
                Seq::<(StaticTypeV, Scope)>::empty()
            },
        decreases names.len() - i,
    {
        let mut vars: Vec<EnvVariable> = Vec::new();
        vars.push(EnvVariable::init());
        let e = (names[i].clone(), vars);
        proof {
            let n = names@[i as int]@;
            assert(names_v(names@.take(i + 1)) =~= names_v(names@.take(i as int)).push(n));
            assert(!names_v(names@.take(i as int)).contains(n)) by {
                if names_v(names@.take(i as int)).contains(n) {
                    let q = choose|q: int| 0 <= q < i && names_v(names@.take(i as int))[q] == n;
                    assert(names_v(names@)[q] == names_v(names@)[i as int]);
                }
            }
            assert(!has_key(env@, n)) by {
                if has_key(env@, n) {
                    let q = choose|q: int| 0 <= q < env@.len() && env@[q].0@ == n;
                    assert(stack_of(env@, n).len() > 0);
                }
            }
            lemma_env_push(env@, e);
            assert(e.1@.map_values(|v: EnvVariable| v@) =~= seq![(StaticTypeV::Any, Scope::Global)]);
        }
        let ghost n = names@[i as int]@;
        let ghost s0 = names_v(names@.take(i as int));
        env.push(e);
        proof {
            assert forall|k: Seq<char>| s0.push(n).contains(k) <==> (s0.contains(k) || k == n) by {
                if s0.push(n).contains(k) {
                    let q = choose|q: int| 0 <= q < s0.push(n).len() && s0.push(n)[q] == k;
                    if q < s0.len() {
                        assert(s0[q] == k);
                    }
                }
                if s0.contains(k) {
                    let q = choose|q: int| 0 <= q < s0.len() && s0[q] == k;
                    assert(s0.push(n)[q] == k);
                }
                if k == n {
                    assert(s0.push(n)[s0.len() as int] == k);
                }
            }
        }
        i = i + 1;
    }
    assert(names@.take(names@.len() as int) =~= names@);
    env
}

/// `g` is the function `f` once its body is typed after the environment
/// `env`.
pub open spec fn typed_fn<'a>(tab: Tables<'a>, env: EnvV, f: Function<'a>, g: Function<'a>) -> bool {
    &&& function_kept(g, f)
    &&& block_ann(tab, body_env(env, f), f.body, g.body)
}

/// What checking the returns of a typed function finds: its value does not
/// fit its return type, or else the first of its `return`s that does not.
pub open spec fn returns_check<'a>(g: Function<'a>) -> Option<(Span<'a>, Seq<char>)> {
    match implicit_return_err(g) {
        Some(x) => Some(x),
        None => returns_err_list(g.body.val@, g.body.val@.len() as int, g.ret_ty@),
    }
}

/// What checking the returns of `f`, once typed after `env`, finds.
pub open spec fn fn_check<'a>(tab: Tables<'a>, env: EnvV, f: Function<'a>) -> Option<(Span<'a>, Seq<char>)> {
    returns_check(choose|g: Function<'a>| typed_fn(tab, env, f, g))
}

/// The function `f` types after `env`, and its returns fit.
pub open spec fn fn_ok<'a>(tab: Tables<'a>, env: EnvV, f: Function<'a>) -> bool {
    &&& ty_block(tab, body_env(env, f), f.body) is Done
    &&& fn_check(tab, env, f) is None
}

/// Typing the function `f`, after the environment `env`, is refused with
/// the error `e`: its body does not type, or its returns do not fit.
pub open spec fn function_refused<'a>(tab: Tables<'a>, env: EnvV, f: Function<'a>, e: ReadError<'a>) -> bool {
    let o = ty_block(tab, body_env(env, f), f.body);
    ||| (o is Fail && outcome_matches(Err::<(), ReadError<'a>>(e), o))
    ||| (o is Done && result_is(Err(e), fn_check(tab, env, f)))
}

/// The checks of the returns read of a typed function only what typing
/// fixes, so every typing of it gives the same result.
proof fn lemma_returns_check_typed<'a>(tab: Tables<'a>, env: EnvV, f: Function<'a>, g1: Function<'a>, g2: Function<'a>)
    requires
        typed_fn(tab, env, f, g1),
        typed_fn(tab, env, f, g2),
    ensures
        returns_check(g1) == returns_check(g2),
{
    let s = f.body.val@;
    let n = s.len();
    assert(g1.body.val@.len() == n && g2.body.val@.len() == n);
    if n > 0 {
        lemma_list_ann_at(tab, body_env(env, f), s, g1.body.val@, n - 1);
        lemma_list_ann_at(tab, body_env(env, f), s, g2.body.val@, n - 1);
    }
    lemma_returns_list_ann(tab, body_env(env, f), s, g1.body.val@, g2.body.val@, f.ret_ty@);
}

/// A typing of `f` gives the check of its returns.
proof fn lemma_fn_check<'a>(tab: Tables<'a>, env: EnvV, f: Function<'a>, g: Function<'a>)
    requires
        typed_fn(tab, env, f, g),
    ensures
        fn_check(tab, env, f) == returns_check(g),
{
    let c = choose|g: Function<'a>| typed_fn(tab, env, f, g);
    lemma_returns_check_typed(tab, env, f, c, g);
}

/// Types a function: its parameters and the variables its body assigns are
/// bound as local variables, the body is typed, its returns are checked
/// against the return type, and the bindings are undone.
fn type_function<'a>(tcx: &mut TypingContext<'a>, f: Function<'a>) -> (r: Result<Function<'a>, ReadError<'a>>)
    requires
        ready(*old(tcx)),
        !(ty_block(tables_of(*old(tcx)), body_env(env_of(*old(tcx)), f), f.body) is Stuck),
    ensures
        ready(*final(tcx)),
        keeps_tables(*final(tcx), *old(tcx)),
        r is Ok ==> function_kept(r->Ok_0, f) && ty_block(tables_of(*old(tcx)), body_env(env_of(*old(tcx)), f), f.body) is Done
            && env_of(*final(tcx)) == env_after_function(tables_of(*old(tcx)), env_of(*old(tcx)), f),
        r is Ok ==> typed_fn(tables_of(*old(tcx)), env_of(*old(tcx)), f, r->Ok_0) && fn_ok(tables_of(*old(tcx)), env_of(*old(tcx)), f),
        fn_ok(tables_of(*old(tcx)), env_of(*old(tcx)), f) ==> r is Ok,
        ty_block(tables_of(*old(tcx)), body_env(env_of(*old(tcx)), f), f.body) is Fail ==> r is Err
            && outcome_matches(Err::<(), ReadError<'a>>(r->Err_0), ty_block(tables_of(*old(tcx)), body_env(env_of(*old(tcx)), f), f.body)),
        r is Err ==> function_refused(tables_of(*old(tcx)), env_of(*old(tcx)), f, r->Err_0),
{
    let ghost tab = tables_of(*tcx);
    let ghost env0 = env_of(*tcx);
    let ghost f0 = f;
    let mut func = f;
    let mut p: usize = 0;
    while p < func.params.len()
        invariant
            p <= func.params@.len(),
            func == f0,
            ready(*tcx),
            tables_of(*tcx) == tab,
            keeps_tables(*tcx, *old(tcx)),
            env_of(*tcx) == params_pushed(env0, f0.params@, p as int),
        decreases func.params.len() - p,
    {
        tcx_push(tcx, &func.params[p].name, func.params[p].ty.duplicate(), Scope::Local);
        p = p + 1;
    }
    let ids = collect_all_assign_in_array(&func.body.val);
    let extra = tcx_extend(tcx, ids);
    assert(env_of(*tcx) == body_env(env0, f0));
    let rb = type_block(tcx, &mut func.body);
    if rb.is_err() {
        return Err(rb.unwrap_err());
    }
    let ghost env1 = env_of(*tcx);
    proof {
        assert(function_kept(func, f0));
        assert(typed_fn(tab, env0, f0, func));
        lemma_fn_check(tab, env0, f0, func);
    }
    let ri = verify_implicit_return(&func);
    if ri.is_err() {
        let e = ri.unwrap_err();
        proof {
            assert(result_is(Err(e), implicit_return_err(func)));
            assert(result_is(Err(e), fn_check(tab, env0, f0)));
        }
        return Err(e);
    }
    let re = verify_explicit_returns(&func.body, func.ret_ty.duplicate());
    if re.is_err() {
        let e = re.unwrap_err();
        proof {
            assert(result_is(Err(e), returns_err_list(func.body.val@, func.body.val@.len() as int, func.ret_ty@)));
            assert(result_is(Err(e), fn_check(tab, env0, f0)));
        }
        return Err(e);
    }
    let mut q: usize = 0;
    while q < func.params.len()
        invariant
            q <= func.params@.len(),
            func.params == f0.params,
            ready(*tcx),
            tables_of(*tcx) == tab,
            keeps_tables(*tcx, *old(tcx)),
            env_of(*tcx) == params_popped(env1, f0.params@, q as int),
        decreases func.params.len() - q,
    {
        tcx_pop(tcx, &func.params[q].name);
        q = q + 1;
    }
    tcx_unextend(tcx, extra);
    Ok(func)
}

/// The environment in which the function at `(i, j)` is typed: the one that
/// the functions before it leave.
pub open spec fn env_before<'a>(tab: Tables<'a>, env: EnvV, es: Seq<(String, Vec<Function<'a>>)>, i: int, j: int) -> EnvV {
    env_after_fns(tab, env_after_entries(tab, env, es, i), es[i].1@, j)
}

/// Every function types and its returns fit, each after those before it.
pub open spec fn functions_ok<'a>(tab: Tables<'a>, env: EnvV, es: Seq<(String, Vec<Function<'a>>)>) -> bool {
    forall|i: int, j: int|
        0 <= i < es.len() && 0 <= j < es[i].1@.len() ==> #[trigger] fn_ok(tab, env_before(tab, env, es, i, j), es[i].1@[j])
}

/// `ts` are the functions `es`, name by name, each typed after those before
/// it.
pub open spec fn functions_typed<'a>(
    tab: Tables<'a>,
    env: EnvV,
    es: Seq<(String, Vec<Function<'a>>)>,
    ts: Seq<(String, Vec<Function<'a>>)>,
) -> bool {
    &&& ts.len() == es.len()
    &&& forall|i: int| 0 <= i < es.len() ==> (#[trigger] ts[i]).0 == es[i].0 && ts[i].1@.len() == es[i].1@.len()
    &&& forall|i: int, j: int|
        0 <= i < es.len() && 0 <= j < es[i].1@.len() ==> typed_fn(tab, env_before(tab, env, es, i, j), es[i].1@[j], #[trigger] ts[i].1@[j])
}

/// The first function refused is refused with `e`: every function before
/// it types and its returns fit.
pub open spec fn first_refused<'a>(tab: Tables<'a>, env: EnvV, es: Seq<(String, Vec<Function<'a>>)>, e: ReadError<'a>) -> bool {
    exists|i: int, j: int|
        {
            &&& 0 <= i < es.len()
            &&& 0 <= j < es[i].1@.len()
            &&& #[trigger] function_refused(tab, env_before(tab, env, es, i, j), es[i].1@[j], e)
            &&& forall|i2: int, j2: int|
                ((0 <= i2 < i && 0 <= j2 < es[i2].1@.len()) || (i2 == i && 0 <= j2 < j)) ==> #[trigger] fn_ok(
                    tab,
                    env_before(tab, env, es, i2, j2),
                    es[i2].1@[j2],
                )
        }
}

/// Among the functions `fs`, each typed in the environment the previous
/// ones leave, the first refused is refused with `e`.
pub open spec fn list_refused<'a>(tab: Tables<'a>, env: EnvV, fs: Seq<Function<'a>>, e: ReadError<'a>) -> bool {
    exists|j: int|
        {
            &&& 0 <= j < fs.len()
            &&& #[trigger] function_refused(tab, env_after_fns(tab, env, fs, j), fs[j], e)
            &&& forall|u: int| 0 <= u < j ==> #[trigger] fn_ok(tab, env_after_fns(tab, env, fs, u), fs[u])
        }
}

/// Types the functions `fns`, each in the environment the previous ones
/// leave, and stops at the first that is refused.
#[verifier::spinoff_prover]
#[verifier::rlimit(100)]
fn type_function_list<'a>(tcx: &mut TypingContext<'a>, fns: Vec<Function<'a>>) -> (r: Result<Vec<Function<'a>>, ReadError<'a>>)
    requires
        ready(*old(tcx)),
        forall|j: int|
            0 <= j < fns@.len() ==> !(#[trigger] ty_block(
                tables_of(*old(tcx)),
                body_env(env_after_fns(tables_of(*old(tcx)), env_of(*old(tcx)), fns@, j), fns@[j]),
                fns@[j].body,
            ) is Stuck),
    ensures
        ready(*final(tcx)),
        keeps_tables(*final(tcx), *old(tcx)),
        r is Ok ==> {
            &&& r->Ok_0@.len() == fns@.len()
            &&& env_of(*final(tcx)) == env_after_fns(tables_of(*old(tcx)), env_of(*old(tcx)), fns@, fns@.len() as int)
            &&& forall|u: int|
                0 <= u < fns@.len() ==> typed_fn(
                    tables_of(*old(tcx)),
                    env_after_fns(tables_of(*old(tcx)), env_of(*old(tcx)), fns@, u),
                    fns@[u],
                    #[trigger] r->Ok_0@[u],
                )
            &&& forall|u: int|
                0 <= u < fns@.len() ==> #[trigger] fn_ok(
                    tables_of(*old(tcx)),
                    env_after_fns(tables_of(*old(tcx)), env_of(*old(tcx)), fns@, u),
                    fns@[u],
                )
        },
        r is Err ==> list_refused(tables_of(*old(tcx)), env_of(*old(tcx)), fns@, r->Err_0),
{
    let ghost tab = tables_of(*tcx);
    let ghost env0 = env_of(*tcx);
    let ghost fs = fns@;
    let mut vfs = fns;
    assert(fs.len() == vfs.len());
    let mut done: Vec<Function<'a>> = Vec::new();
    let mut j: usize = 0;
    while vfs.len() > 0
        invariant
            j + vfs@.len() == fs.len(),
            fs.len() <= usize::MAX,
            vfs@ == fs.subrange(j as int, fs.len() as int),
            ready(*tcx),
            tables_of(*tcx) == tab,
            keeps_tables(*tcx, *old(tcx)),
            tab == tables_of(*old(tcx)),
            env0 == env_of(*old(tcx)),
            fs == fns@,
            env_of(*tcx) == env_after_fns(tab, env0, fs, j as int),
            forall|u: int|
                0 <= u < fs.len() ==> !(#[trigger] ty_block(tab, body_env(env_after_fns(tab, env0, fs, u), fs[u]), fs[u].body) is Stuck),
            done@.len() == j,
            forall|u: int| 0 <= u < j ==> typed_fn(tab, env_after_fns(tab, env0, fs, u), fs[u], #[trigger] done@[u]),
            forall|u: int| 0 <= u < j ==> #[trigger] fn_ok(tab, env_after_fns(tab, env0, fs, u), fs[u]),
        decreases vfs.len(),
    {
        let f = vfs.remove(0);
        proof {
            assert(f == fs[j as int]);
            assert(!(ty_block(tab, body_env(env_after_fns(tab, env0, fs, j as int), fs[j as int]), fs[j as int].body) is Stuck));
        }
        let tf = type_function(tcx, f);
        match tf {
            Ok(g) => {
                done.push(g);
            },
            Err(e) => {
                proof {
                    let jj = j as int;
                    assert(function_refused(tab, env_after_fns(tab, env0, fs, jj), fs[jj], e));
                    assert(forall|u: int| 0 <= u < jj ==> #[trigger] fn_ok(tab, env_after_fns(tab, env0, fs, u), fs[u]));
                    assert(list_refused(tab, env0, fs, e));
                }
                return Err(e);
            },
        }
        j = j + 1;
    }
    Ok(done)
}

/// Types the functions, name after name, each in the environment the
/// previous ones leave.
#[verifier::spinoff_prover]
#[verifier::rlimit(50)]
fn type_functions<'a>(tcx: &mut TypingContext<'a>, fns: Vec<(String, Vec<Function<'a>>)>) -> (r: Result<Vec<(String, Vec<Function<'a>>)>, ReadError<'a>>)
    requires
        ready(*old(tcx)),
        bodies_total(tables_of(*old(tcx)), env_of(*old(tcx)), fns@),
    ensures
        ready(*final(tcx)),
        keeps_tables(*final(tcx), *old(tcx)),
        r is Ok ==> functions_typed(tables_of(*old(tcx)), env_of(*old(tcx)), fns@, r->Ok_0@),
        r is Ok <==> functions_ok(tables_of(*old(tcx)), env_of(*old(tcx)), fns@),
        r is Err ==> first_refused(tables_of(*old(tcx)), env_of(*old(tcx)), fns@, r->Err_0),
{
    let ghost tab = tables_of(*tcx);
    let ghost env0 = env_of(*tcx);
    let ghost es = fns@;
    let mut rest = fns;
    assert(es.len() == rest.len());
    let mut out: Vec<(String, Vec<Function<'a>>)> = Vec::new();
    let mut i: usize = 0;
    while rest.len() > 0
        invariant
            i + rest@.len() == es.len(),
            es.len() <= usize::MAX,
            rest@ == es.subrange(i as int, es.len() as int),
            ready(*tcx),
            tables_of(*tcx) == tab,
            keeps_tables(*tcx, *old(tcx)),
            env_of(*tcx) == env_after_entries(tab, env0, es, i as int),
            bodies_total(tab, env0, es),
            tab == tables_of(*old(tcx)),
            env0 == env_of(*old(tcx)),
            es == fns@,
            out@.len() == i,
            forall|t: int| 0 <= t < i ==> (#[trigger] out@[t]).0 == es[t].0 && out@[t].1@.len() == es[t].1@.len(),
            forall|t: int, u: int|
                0 <= t < i && 0 <= u < es[t].1@.len() ==> typed_fn(tab, env_before(tab, env0, es, t, u), es[t].1@[u], #[trigger] out@[t].1@[u]),
            forall|t: int, u: int|
                0 <= t < i && 0 <= u < es[t].1@.len() ==> #[trigger] fn_ok(tab, env_before(tab, env0, es, t, u), es[t].1@[u]),
        decreases rest.len(),
    {
        let (name, vfs) = rest.remove(0);
        let ghost fs = vfs@;
        let ghost envi = env_after_entries(tab, env0, es, i as int);
        proof {
            assert(es[i as int] == (name, vfs));
            assert forall|u: int| 0 <= u < fs.len() implies !(#[trigger] ty_block(tab, body_env(env_after_fns(tab, envi, fs, u), fs[u]), fs[u].body) is Stuck) by {
                assert(env_at(tab, env0, es, i as int, u) == body_env(env_after_fns(tab, envi, fs, u), fs[u]));
                assert(!(ty_block(tab, env_at(tab, env0, es, i as int, u), es[i as int].1@[u].body) is Stuck));
            }
        }
        let rt = type_function_list(tcx, vfs);
        match rt {
            Ok(done) => {
                proof {
                    assert forall|u: int| 0 <= u < fs.len() implies env_before(tab, env0, es, i as int, u) == env_after_fns(tab, envi, fs, u) by {}
                }
                out.push((name, done));
                proof {
                    assert(out@[i as int].0 == es[i as int].0);
                    assert(env_after_entries(tab, env0, es, i + 1) == env_after_fns(tab, envi, fs, fs.len() as int));
                    assert forall|t: int, u: int| 0 <= t < i + 1 && 0 <= u < es[t].1@.len() implies typed_fn(
                        tab, env_before(tab, env0, es, t, u), es[t].1@[u], #[trigger] out@[t].1@[u]) by {
                        if t == i {
                            assert(env_before(tab, env0, es, t, u) == env_after_fns(tab, envi, fs, u));
                            assert(typed_fn(tab, env_after_fns(tab, envi, fs, u), fs[u], done@[u]));
                        }
                    }
                    assert forall|t: int, u: int| 0 <= t < i + 1 && 0 <= u < es[t].1@.len() implies #[trigger] fn_ok(
                        tab, env_before(tab, env0, es, t, u), es[t].1@[u]) by {
                        if t == i {
                            assert(env_before(tab, env0, es, t, u) == env_after_fns(tab, envi, fs, u));
                            assert(fn_ok(tab, env_after_fns(tab, envi, fs, u), fs[u]));
                        }
                    }
                }
            },
            Err(e) => {
                proof {
                    assert(list_refused(tab, envi, fs, e));
                    let j = choose|j: int|
                        {
                            &&& 0 <= j < fs.len()
                            &&& #[trigger] function_refused(tab, env_after_fns(tab, envi, fs, j), fs[j], e)
                            &&& forall|u: int| 0 <= u < j ==> #[trigger] fn_ok(tab, env_after_fns(tab, envi, fs, u), fs[u])
                        };
                    assert(env_before(tab, env0, es, i as int, j) == env_after_fns(tab, envi, fs, j));
                    assert(function_refused(tab, env_before(tab, env0, es, i as int, j), es[i as int].1@[j], e));
                    assert forall|i2: int, j2: int|
                        ((0 <= i2 < i && 0 <= j2 < es[i2].1@.len()) || (i2 == i && 0 <= j2 < j)) implies #[trigger] fn_ok(
                            tab, env_before(tab, env0, es, i2, j2), es[i2].1@[j2]) by {
                        if i2 == i {
                            assert(env_before(tab, env0, es, i2, j2) == env_after_fns(tab, envi, fs, j2));
                            assert(fn_ok(tab, env_after_fns(tab, envi, fs, j2), fs[j2]));
                        }
                    }
                    assert(first_refused(tab, env0, es, e));
                    assert(!fn_ok(tab, env_before(tab, env0, es, i as int, j), es[i as int].1@[j]));
                }
                return Err(e);
            },
        }
        i = i + 1;
    }
    proof {
        assert(functions_typed(tab, env0, es, out@));
        assert(functions_ok(tab, env0, es));
    }
    Ok(out)
}

/// The second pass goes through: the global expressions type, then every
/// function does and its returns fit.
pub open spec fn second_pass_ok<'a>(g: GlobalEnvironmentState<'a>) -> bool {
    &&& globals_typed(g) is Done
    &&& functions_ok(state_tables(g), globals_typed(g)->Done_0, g.functions@)
}

/// The second pass is refused with `e`: by the first global expression that
/// does not type, or else by the first function refused.
pub open spec fn second_pass_refused<'a>(g: GlobalEnvironmentState<'a>, e: ReadError<'a>) -> bool {
    ||| (globals_typed(g) is Fail && outcome_matches(Err::<(), ReadError<'a>>(e), globals_typed(g)))
    ||| (globals_typed(g) is Done && first_refused(state_tables(g), globals_typed(g)->Done_0, g.functions@, e))
}

/// The program is accepted: no declaration is refused, and the second pass
/// goes through after the first.
pub open spec fn program_ok<'a>(ds: Seq<Decl<'a>>) -> bool {
    &&& forall|k: int, e: ReadError<'a>| !#[trigger] refused_at(ds, k, e)
    &&& forall|gs: Seq<GlobalEnvironmentState<'a>>| #[trigger] gathered(ds, gs) ==> second_pass_ok(gs.last())
}

/// Types a program. The first pass enters the declarations in their order:
/// structures, function signatures and global variables, refusing the
/// first declaration that is malformed. The second pass types the global
/// expressions in their order, then the body of each function, name after
/// name, with its parameters and the variables it assigns bound as local
/// variables, and checks its returns.
#[verifier::spinoff_prover]
pub fn static_type<'a>(decls: Vec<Decl<'a>>) -> (r: Result<TypedDecls<'a>, ReadError<'a>>)
    requires
        typing_total(decls@),
    ensures
        r is Ok ==> exists|gs: Seq<GlobalEnvironmentState<'a>>|
            #[trigger] gathered(decls@, gs) && second_pass_ok(gs.last()) && typed_result(gs.last(), r->Ok_0),
        program_ok(decls@) ==> r is Ok,
        r is Err ==> (exists|k: int| #[trigger] refused_at(decls@, k, r->Err_0)) || exists|gs: Seq<GlobalEnvironmentState<'a>>|
            #[trigger] gathered(decls@, gs) && second_pass_refused(gs.last(), r->Err_0),
{
    let ghost ds = decls@;
    let mut g = GlobalEnvironmentState::init();
    let ghost mut gs: Seq<GlobalEnvironmentState<'a>> = seq![g];
    let mut rest = decls;
    assert(ds.len() == rest.len());
    proof {
        assert(ds.take(0) =~= Seq::<Decl<'a>>::empty());
        assert(names_v(g.global_variables@) =~= Seq::<Seq<char>>::empty());
    }
    let mut k: usize = 0;
    while rest.len() > 0
        invariant
            k + rest@.len() == ds.len(),
            ds.len() <= usize::MAX,
            ds == decls@,
            rest@ == ds.subrange(k as int, ds.len() as int),
            g.wf(),
            gathered(ds.take(k as int), gs),
            gs.last() == g,
        decreases rest.len(),
    {
        let d = rest.remove(0);
        proof {
            assert(d == ds[k as int]);
        }
        let ghost before = g;
        let res = g.visit_decl(d);
        match res {
            Err(e) => {
                proof {
                    assert(decl_visited(gs.last(), ds[k as int], Err(e), g));
                    assert(refused_at(ds, k as int, e));
                    assert(refused_at(decls@, k as int, e));
                }
                let r: Result<TypedDecls<'a>, ReadError<'a>> = Err(e);
                assert(r->Err_0 == e);
                assert(exists|kk: int| #[trigger] refused_at(decls@, kk, r->Err_0));
                return r;
            },
            Ok(u) => {
                assert(u == ());
                assert(res == Ok::<(), ReadError<'a>>(()));
            },
        }
        proof {
            let gs2 = gs.push(g);
            let dk = ds.take(k + 1);
            assert(dk.take(k as int) =~= ds.take(k as int));
            assert forall|t: int| 0 <= t < dk.len() implies #[trigger] decl_visited(gs2[t], dk[t], Ok(()), gs2[t + 1]) by {
                if t < k {
                    assert(ds.take(k as int)[t] == dk[t]);
                    assert(decl_visited(gs[t], ds.take(k as int)[t], Ok(()), gs[t + 1]));
                } else {
                    assert(dk[t] == ds[k as int]);
                    assert(gs2[t] == before);
                    assert(res == Ok::<(), ReadError<'a>>(()));
                }
            }
            gs = gs2;
        }
        k = k + 1;
    }
    proof {
        assert(ds.take(ds.len() as int) =~= ds);
        assert(gathered(ds, gs));
        assert(second_pass_total(g));
    }
    let mut environment = to_env(&g.global_variables);
    let ghost env_a = environment@;
    let ghost fe = first_env(g);
    let ghost any1 = seq![(StaticTypeV::Any, Scope::Global)];
    let ghost noth = seq![(StaticTypeV::Nothing, Scope::Global)];
    proof {
        reveal_strlit("nothing");
    }
    match find_key(&environment, "nothing") {
        Some(p) => {
            proof {
                crate::parser::typing::data::lemma_key_pos(env_a, p as int);
            }
            let mut e = environment.remove(p);
            let ghost e0 = e;
            e.1.push(EnvVariable::typed(StaticType::Nothing));
            proof {
                assert(e.1@.map_values(|v: EnvVariable| v@) =~= e0.1@.map_values(|v: EnvVariable| v@).push((StaticTypeV::Nothing, Scope::Global)));
                lemma_env_update(env_a, p as int, e);
            }
            environment.insert(p, e);
            proof {
                assert(environment@ =~= env_a.update(p as int, e));
                assert(stack_of(env_a, "nothing"@).len() > 0);
                assert(names_v(g.global_variables@).contains("nothing"@));
                assert forall|x: Seq<char>| #[trigger] stack_of(environment@, x) == (fe.stacks)(x) by {
                    if x == "nothing"@ {
                        assert(stack_of(env_a, x) == any1);
                        assert(any1 + noth =~= any1.push((StaticTypeV::Nothing, Scope::Global)));
                    } else {
                        assert(stack_of(env_a, x) + Seq::<(StaticTypeV, Scope)>::empty() =~= stack_of(env_a, x));
                    }
                }
            }
        },
        None => {
            let mut v: Vec<EnvVariable> = Vec::new();
            v.push(EnvVariable::typed(StaticType::Nothing));
            let e = (owned("nothing"), v);
            proof {
                lemma_env_push(env_a, e);
                assert(e.1@.map_values(|x: EnvVariable| x@) =~= noth);
            }
            environment.push(e);
            proof {
                assert forall|x: Seq<char>| #[trigger] stack_of(environment@, x) == (fe.stacks)(x) by {
                    if x == "nothing"@ {
                        assert(!names_v(g.global_variables@).contains(x)) by {
                            if names_v(g.global_variables@).contains(x) {
                                assert(stack_of(env_a, x).len() > 0);
                            }
                        }
                        assert(Seq::<(StaticTypeV, Scope)>::empty() + noth =~= noth);
                    } else {
                        assert(stack_of(env_a, x) + Seq::<(StaticTypeV, Scope)>::empty() =~= stack_of(env_a, x));
                    }
                }
            }
        },
    }
    let ghost env_b = environment@;
    let ghost g_end = g;
    let GlobalEnvironmentState {
        structures,
        functions,
        function_sigs,
        structure_name_by_fields,
        all_structure_fields,
        all_mutable_fields,
        global_variables: _,
        global_expressions,
        known_types,
    } = g;
    let mut global_expressions = global_expressions;
    let mut ctx = TypingContext {
        functions: function_sigs,
        structures,
        known_types,
        mutable_fields: all_mutable_fields,
        all_fields: all_structure_fields,
        structure_name_by_fields,
        previous_scope: Scope::Global,
        current_scope: Scope::Global,
        environment,
    };
    proof {
        assert(tables_of(ctx) == state_tables(g_end));
        assert(ctx.environment@ == env_b);
        assert forall|x: Seq<char>| #[trigger] ctx.stack(x) == (fe.stacks)(x) by {
            assert(ctx.stack(x) == stack_of(env_b, x));
        }
        assert(env_of(ctx) =~= fe);
        assert(ready(ctx));
    }
    let rl = type_list(&mut ctx, &mut global_expressions);
    if rl.is_err() {
        let e = rl.unwrap_err();
        proof {
            assert(second_pass_refused(g_end, e));
            assert(!second_pass_ok(g_end));
        }
        return Err(e);
    }
    proof {
        assert(env_of(ctx) == globals_typed(g_end)->Done_0);
    }
    let rf = type_functions(&mut ctx, functions);
    match rf {
        Err(e) => {
            proof {
                assert(second_pass_refused(g_end, e));
                assert(!second_pass_ok(g_end));
            }
            Err(e)
        },
        Ok(out) => {
            let t = TypedDecls { functions: out, structures: ctx.structures, global_expressions };
            proof {
                assert(typed_result(g_end, t));
                assert(second_pass_ok(g_end));
            }
            Ok(t)
        },
    }
}

} // verus!
